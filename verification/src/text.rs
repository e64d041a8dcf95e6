//! The codec for fixed-capacity text fields: character arrays holding a
//! zero-terminated UTF-8 string, zero-padded to their full capacity.

use vstd::prelude::*;
use vstd::slice::{slice_index_get, slice_subrange};
use vstd::utf8::{decode_utf8, encode_utf8, valid_utf8};

use crate::error::CodecError;
use crate::types::{decode_result_matches, encode_result_matches, Value, ValueModel};

verus! {

broadcast use vstd::std_specs::vec::group_vec_axioms;

/// `n` zero bytes.
pub open spec fn zeros(n: nat) -> Seq<u8> {
    Seq::new(n, |i: int| 0u8)
}

/// The position of the first zero byte at or after `j`, if any.
pub open spec fn spec_first_zero_from(b: Seq<u8>, j: int) -> Option<int>
    decreases b.len() - j,
{
    if j < 0 || j >= b.len() {
        None
    } else if b[j] == 0 {
        Some(j)
    } else {
        spec_first_zero_from(b, j + 1)
    }
}

/// The position of the first zero byte of `b`, if any.
pub open spec fn spec_first_zero(b: Seq<u8>) -> Option<int> {
    spec_first_zero_from(b, 0)
}

/// What the first-zero search finds: a zero byte preceded only by non-zero
/// bytes, or the guarantee that no zero byte follows `j`.
pub proof fn lemma_first_zero_from(b: Seq<u8>, j: int)
    requires
        0 <= j <= b.len(),
    ensures
        match spec_first_zero_from(b, j) {
            Some(i) => j <= i < b.len() && b[i] == 0 && forall|k: int| j <= k < i ==> b[k] != 0,
            None => forall|k: int| j <= k < b.len() ==> b[k] != 0,
        },
    decreases b.len() - j,
{
    if j < b.len() && b[j] != 0 {
        lemma_first_zero_from(b, j + 1);
    }
}

/// What decoding a text field of the given capacity yields: exactly the
/// bytes before the first zero byte, interpreted as UTF-8 text.
pub open spec fn spec_decode_text(capacity: u32, b: Seq<u8>) -> Result<ValueModel, CodecError> {
    if b.len() != capacity {
        Err(CodecError::LengthMismatch)
    } else {
        match spec_first_zero(b) {
            None => Err(CodecError::MissingTerminator),
            Some(i) => {
                if !valid_utf8(b.subrange(0, i)) {
                    Err(CodecError::InvalidText)
                } else {
                    Ok(ValueModel::Text(decode_utf8(b.subrange(0, i))))
                }
            },
        }
    }
}

/// What encoding text into a field of the given capacity yields: the UTF-8
/// bytes, one terminator byte, and zero padding up to the capacity — or
/// `TextTooLong` when text and terminator do not fit.
pub open spec fn spec_encode_text(capacity: u32, chars: Seq<char>) -> Result<Seq<u8>, CodecError> {
    let bytes = encode_utf8(chars);
    if bytes.len() + 1 > capacity {
        Err(CodecError::TextTooLong)
    } else {
        Ok(bytes + seq![0u8] + zeros((capacity - bytes.len() - 1) as nat))
    }
}

/// What encoding a value against a text field yields.
pub open spec fn spec_encode_text_value(capacity: u32, m: ValueModel) -> Result<
    Seq<u8>,
    CodecError,
> {
    match m {
        ValueModel::Text(chars) => spec_encode_text(capacity, chars),
        _ => Err(CodecError::MalformedTypeGraph),
    }
}

/// Relies on `std::str::from_utf8` (with `str::to_owned`): it succeeds
/// exactly on valid UTF-8 input, and the returned string's byte content is
/// the input, here stated through vstd's UTF-8 model.
#[verifier::external_body]
fn utf8_to_string(b: &[u8]) -> (r: Option<String>)
    ensures
        r is Some <==> valid_utf8(b@),
        match r {
            Some(s) => encode_utf8(s@) == b@,
            None => true,
        },
{
    match std::str::from_utf8(b) {
        Ok(s) => Some(s.to_owned()),
        Err(_) => None,
    }
}

/// Decodes a text field from its window: scans the capacity window for the
/// first zero byte and interprets what precedes it as UTF-8 text.
#[verifier::loop_isolation(false)]
pub fn decode_text(capacity: u32, w: &[u8]) -> (r: Result<Value, CodecError>)
    ensures
        decode_result_matches(r, spec_decode_text(capacity, w@)),
{
    if w.len() != capacity as usize {
        return Err(CodecError::LengthMismatch);
    }
    let mut i: usize = 0;
    while i < w.len() && *slice_index_get(w, i) != 0
        invariant
            0 <= i <= w@.len(),
            spec_first_zero(w@) == spec_first_zero_from(w@, i as int),
        decreases w@.len() - i,
    {
        i = i + 1;
    }
    if i == w.len() {
        return Err(CodecError::MissingTerminator);
    }
    let prefix: &[u8] = slice_subrange(w, 0, i);
    match utf8_to_string(prefix) {
        None => Err(CodecError::InvalidText),
        Some(s) => {
            proof {
                broadcast use vstd::utf8::encode_utf8_decode_utf8;

                assert(decode_utf8(w@.subrange(0, i as int)) == s@);
            }
            Ok(Value::Text(s))
        },
    }
}

/// Encodes a value against a text field of the given capacity.
#[verifier::loop_isolation(false)]
pub fn encode_text(capacity: u32, v: &Value) -> (r: Result<Vec<u8>, CodecError>)
    ensures
        encode_result_matches(r, spec_encode_text_value(capacity, v.model())),
{
    match v {
        Value::Text(s) => {
            let bytes: &[u8] = s.as_str().as_bytes();
            if bytes.len() >= capacity as usize {
                return Err(CodecError::TextTooLong);
            }
            let mut out: Vec<u8> = Vec::new();
            let mut i: usize = 0;
            while i < bytes.len()
                invariant
                    0 <= i <= bytes@.len(),
                    out@ =~= bytes@.take(i as int),
                decreases bytes@.len() - i,
            {
                out.push(*slice_index_get(bytes, i));
                i = i + 1;
            }
            out.push(0);
            while out.len() < capacity as usize
                invariant
                    bytes@.len() + 1 <= out@.len() <= capacity,
                    out@ =~= bytes@ + seq![0u8] + zeros(
                        (out@.len() - bytes@.len() - 1) as nat,
                    ),
                decreases capacity - out@.len(),
            {
                out.push(0);
            }
            proof {
                assert(out@ =~= bytes@ + seq![0u8] + zeros(
                    (capacity - bytes@.len() - 1) as nat,
                ));
            }
            Ok(out)
        },
        _ => Err(CodecError::MalformedTypeGraph),
    }
}

} // verus!
