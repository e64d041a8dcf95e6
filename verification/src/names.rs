//! Deterministic identifiers for generated type representations and their
//! decode/encode operations, derived from the numeric type id alone.
//!
//! Distinct ids always yield distinct identifiers
//! ([`lemma_names_collision_free`]), so the generated artifacts can never
//! shadow one another.

use vstd::prelude::*;

verus! {

/// The character for one decimal digit.
pub open spec fn digit_char(d: int) -> char {
    if d == 0 {
        '0'
    } else if d == 1 {
        '1'
    } else if d == 2 {
        '2'
    } else if d == 3 {
        '3'
    } else if d == 4 {
        '4'
    } else if d == 5 {
        '5'
    } else if d == 6 {
        '6'
    } else if d == 7 {
        '7'
    } else if d == 8 {
        '8'
    } else {
        '9'
    }
}

/// The decimal rendering of `n`, most significant digit first, without
/// leading zeros (`0` renders as `"0"`).
pub open spec fn spec_decimal(n: nat) -> Seq<char>
    decreases n,
{
    if n < 10 {
        seq![digit_char(n as int)]
    } else {
        spec_decimal(n / 10).push(digit_char((n % 10) as int))
    }
}

/// The name of the generated representation of type `id`.
pub open spec fn spec_ty_name(id: u32) -> Seq<char> {
    "btf_type_"@ + spec_decimal(id as nat)
}

/// The name of the generated decode operation of type `id`.
pub open spec fn spec_decode_name(id: u32) -> Seq<char> {
    "deserialize_"@ + spec_ty_name(id)
}

/// The name of the generated encode operation of type `id`.
pub open spec fn spec_encode_name(id: u32) -> Seq<char> {
    "serialize_"@ + spec_ty_name(id)
}

/// Appends one decimal digit to `s`.
fn push_digit(s: &mut String, d: u32)
    requires
        d < 10,
    ensures
        final(s)@ == old(s)@.push(digit_char(d as int)),
{
    let piece: &str = match d {
        0 => "0",
        1 => "1",
        2 => "2",
        3 => "3",
        4 => "4",
        5 => "5",
        6 => "6",
        7 => "7",
        8 => "8",
        _ => "9",
    };
    proof {
        reveal_strlit("0");
        reveal_strlit("1");
        reveal_strlit("2");
        reveal_strlit("3");
        reveal_strlit("4");
        reveal_strlit("5");
        reveal_strlit("6");
        reveal_strlit("7");
        reveal_strlit("8");
        reveal_strlit("9");
        assert(s@ + piece@ =~= s@.push(digit_char(d as int)));
    }
    s.append(piece);
}

/// The digit characters of `ds` read back to front.
spec fn rev_digit_chars(ds: Seq<u32>) -> Seq<char> {
    Seq::new(ds.len(), |i: int| digit_char(ds[ds.len() - 1 - i] as int))
}

/// The decimal rendering of `n` as a `String`.
#[verifier::loop_isolation(false)]
pub fn decimal_string(n: u32) -> (s: String)
    ensures
        s@ == spec_decimal(n as nat),
{
    let mut digits: Vec<u32> = Vec::new();
    digits.push(n % 10);
    let mut m: u32 = n / 10;
    proof {
        if m > 0 {
            assert(spec_decimal(n as nat) =~= spec_decimal(m as nat) + rev_digit_chars(digits@));
        } else {
            assert(spec_decimal(n as nat) =~= rev_digit_chars(digits@));
        }
    }
    while m > 0
        invariant
            digits@.len() > 0,
            spec_decimal(n as nat) == if m > 0 {
                spec_decimal(m as nat) + rev_digit_chars(digits@)
            } else {
                rev_digit_chars(digits@)
            },
            forall|i: int| 0 <= i < digits@.len() ==> digits@[i] < 10,
        decreases m,
    {
        let d: u32 = m % 10;
        let ghost before: Seq<u32> = digits@;
        let ghost m_before: nat = m as nat;
        digits.push(d);
        m = m / 10;
        proof {
            assert(rev_digit_chars(before.push(d)) =~= seq![digit_char(d as int)]
                + rev_digit_chars(before));
            if m > 0 {
                assert(spec_decimal(m_before) == spec_decimal(m as nat).push(
                    digit_char(d as int),
                ));
                assert(spec_decimal(n as nat) =~= spec_decimal(m as nat) + rev_digit_chars(
                    digits@,
                ));
            } else {
                assert(spec_decimal(m_before) == seq![digit_char(d as int)]);
                assert(spec_decimal(n as nat) =~= rev_digit_chars(digits@));
            }
        }
    }
    let mut s: String = String::new();
    let mut i: usize = digits.len();
    while i > 0
        invariant
            i <= digits@.len(),
            forall|k: int| 0 <= k < digits@.len() ==> digits@[k] < 10,
            s@ =~= rev_digit_chars(digits@).take(digits@.len() - i),
        decreases i,
    {
        i = i - 1;
        push_digit(&mut s, digits[i]);
        proof {
            assert(s@ =~= rev_digit_chars(digits@).take(digits@.len() - i));
        }
    }
    proof {
        assert(s@ =~= rev_digit_chars(digits@));
    }
    s
}

/// The identifier of the generated representation of type `ty_id`.
pub fn ty_name(ty_id: u32) -> (s: String)
    ensures
        s@ == spec_ty_name(ty_id),
{
    let mut s: String = String::from_str("btf_type_");
    let digits: String = decimal_string(ty_id);
    s.append(digits.as_str());
    s
}

/// The identifiers of the generated decode and encode operations of type
/// `ty_id`, in that order.
pub fn func_names(ty_id: u32) -> (r: (String, String))
    ensures
        r.0@ == spec_decode_name(ty_id),
        r.1@ == spec_encode_name(ty_id),
{
    let base: String = ty_name(ty_id);
    let mut de: String = String::from_str("deserialize_");
    de.append(base.as_str());
    let mut ser: String = String::from_str("serialize_");
    ser.append(base.as_str());
    (de, ser)
}

/// A decimal rendering is never empty, and one of a number of ten or more has
/// at least two digits.
proof fn lemma_decimal_len(n: nat)
    ensures
        spec_decimal(n).len() >= 1,
        n >= 10 ==> spec_decimal(n).len() >= 2,
    decreases n,
{
    if n >= 10 {
        lemma_decimal_len(n / 10);
    }
}

/// Distinct numbers have distinct decimal renderings.
proof fn lemma_decimal_injective(a: nat, b: nat)
    requires
        a != b,
    ensures
        spec_decimal(a) != spec_decimal(b),
    decreases a + b,
{
    lemma_decimal_len(a);
    lemma_decimal_len(b);
    if a < 10 && b < 10 {
        assert(spec_decimal(a)[0] != spec_decimal(b)[0]);
    } else if a < 10 {
        assert(spec_decimal(a).len() != spec_decimal(b).len());
    } else if b < 10 {
        assert(spec_decimal(a).len() != spec_decimal(b).len());
    } else {
        if a % 10 != b % 10 {
            assert(spec_decimal(a).last() != spec_decimal(b).last());
        } else {
            lemma_decimal_injective(a / 10, b / 10);
            if spec_decimal(a) == spec_decimal(b) {
                assert(spec_decimal(a).drop_last() =~= spec_decimal(a / 10));
                assert(spec_decimal(b).drop_last() =~= spec_decimal(b / 10));
                assert(false);
            }
        }
    }
}

/// Appending to a common prefix keeps sequences distinguishable.
proof fn lemma_prefix_cancel(p: Seq<char>, x: Seq<char>, y: Seq<char>)
    requires
        x != y,
    ensures
        p + x != p + y,
{
    if p + x == p + y {
        assert((p + x).skip(p.len() as int) =~= x);
        assert((p + y).skip(p.len() as int) =~= y);
        assert(false);
    }
}

/// Name resolution is collision-free: distinct type ids receive distinct
/// representation names, distinct decode names, and distinct encode names.
pub proof fn lemma_names_collision_free(a: u32, b: u32)
    requires
        a != b,
    ensures
        spec_ty_name(a) != spec_ty_name(b),
        spec_decode_name(a) != spec_decode_name(b),
        spec_encode_name(a) != spec_encode_name(b),
{
    lemma_decimal_injective(a as nat, b as nat);
    lemma_prefix_cancel("btf_type_"@, spec_decimal(a as nat), spec_decimal(b as nat));
    lemma_prefix_cancel("deserialize_"@, spec_ty_name(a), spec_ty_name(b));
    lemma_prefix_cancel("serialize_"@, spec_ty_name(a), spec_ty_name(b));
}

} // verus!
