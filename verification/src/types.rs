//! The type graph that drives codec generation, and the values that the
//! generated codecs read and write.
//!
//! A [`TypeCatalog`] is a read-only, ordered collection of [`TypeDescriptor`]s,
//! addressed by numeric id; it is the library's own representation of the
//! debug-info type section that an application loads and converts at its
//! boundary. A [`Value`] is what decoding a byte buffer against a descriptor
//! yields; [`ValueModel`] is its mathematical image, used by every contract.

use vstd::prelude::*;

use crate::error::CodecError;

verus! {

broadcast use vstd::std_specs::vec::group_vec_axioms;

/// How an integer type interprets its bytes.
#[derive(Debug, Clone, Copy, PartialEq, Eq, Structural)]
pub enum IntEncoding {
    /// A plain unsigned integer.
    Unsigned,
    /// A two's-complement signed integer.
    Signed,
    /// An 8-bit character code unit; as an array element it selects the text
    /// representation, elsewhere it behaves as an unsigned byte.
    Char,
    /// A boolean stored in one byte.
    Boolean,
}

/// The qualifier kinds that denote the same underlying type without altering
/// its layout.
#[derive(Debug, Clone, Copy, PartialEq, Eq, Structural)]
pub enum QualifierKind {
    Typedef,
    Const,
    Volatile,
    Restrict,
}

/// One member of a struct type: a name, the member's (possibly qualified)
/// type, and its position, in bits from the start of the struct.
///
/// `bit_size` is zero for ordinary members; a non-zero value that is not a
/// whole number of bytes marks a bit-field, which the codecs reject.
#[derive(Debug, Clone)]
pub struct StructMember {
    pub name: String,
    pub type_id: u32,
    pub bit_offset: u32,
    pub bit_size: u32,
}

/// One named constant of an enumeration type.
#[derive(Debug, Clone)]
pub struct EnumVariantDef {
    pub name: String,
    pub value: i64,
}

/// One node of the type graph.
#[derive(Debug, Clone)]
pub enum TypeDescriptor {
    /// An integer of `bits` bits with the given encoding.
    Integer { bits: u32, encoding: IntEncoding },
    /// A floating-point number of `size` bytes.
    Float { size: u32 },
    /// A pointer; the codecs treat every pointer as a raw 8-byte address,
    /// whatever it points at.
    Pointer { pointee: u32 },
    /// A fixed-length sequence of `count` elements of the `element` type.
    Array { element: u32, count: u32 },
    /// A struct with a declared byte size and an ordered member list.
    Struct { name: String, size: u32, members: Vec<StructMember> },
    /// An enumeration with a declared byte size and an ordered variant table.
    Enumeration { name: String, size: u32, variants: Vec<EnumVariantDef> },
    /// A typedef/const/volatile/restrict wrapper around `target`.
    Qualifier { kind: QualifierKind, target: u32 },
    /// Any other kind of node (function, void, data-section marker, ...);
    /// no codec is generated for it.
    Other,
}

/// The read-only type catalog: descriptors in ascending id order, where the
/// id of a descriptor is its index.
#[derive(Debug, Clone)]
pub struct TypeCatalog {
    pub types: Vec<TypeDescriptor>,
}

impl View for TypeCatalog {
    type V = Seq<TypeDescriptor>;

    open spec fn view(&self) -> Seq<TypeDescriptor> {
        self.types@
    }
}

impl TypeCatalog {
    /// An empty catalog, to be filled in ascending id order.
    pub fn new() -> (c: TypeCatalog)
        ensures
            c@ == Seq::<TypeDescriptor>::empty(),
    {
        TypeCatalog { types: Vec::new() }
    }

    /// Appends the descriptor whose id is the current length.
    pub fn push(&mut self, d: TypeDescriptor)
        ensures
            final(self)@ == old(self)@.push(d),
    {
        self.types.push(d);
    }

    /// The number of descriptors (one more than the largest id).
    pub fn len(&self) -> (n: usize)
        ensures
            n == self@.len(),
    {
        self.types.len()
    }

    /// Looks a descriptor up by id.
    pub fn get(&self, ty_id: u32) -> (r: Option<&TypeDescriptor>)
        ensures
            match r {
                Some(d) => ty_id < self@.len() && *d == self@[ty_id as int],
                None => ty_id >= self@.len(),
            },
    {
        if (ty_id as usize) < self.types.len() {
            Some(&self.types[ty_id as usize])
        } else {
            None
        }
    }
}

/// A decoded (or to-be-encoded) value, shaped by the descriptor it belongs to.
#[derive(Debug)]
pub enum Value {
    /// An 8-bit boolean.
    Bool(bool),
    U8(u8),
    I8(i8),
    U16(u16),
    I16(i16),
    U32(u32),
    I32(i32),
    U64(u64),
    I64(i64),
    U128(u128),
    I128(i128),
    /// The raw bit pattern of a 4-byte floating-point number.
    F32Bits(u32),
    /// The raw bit pattern of an 8-byte floating-point number.
    F64Bits(u64),
    /// A raw pointer value, 8 bytes wide.
    Pointer(u64),
    /// A fixed-capacity text field.
    Text(String),
    /// A fixed-length array, one value per element.
    Array(Vec<Value>),
    /// A struct, one value per member, in declaration order.
    Struct(Vec<Value>),
    /// An enumeration constant, given as its index into the variant table.
    EnumVariant(usize),
}

/// The mathematical image of a [`Value`]: the same shape over `Seq`.
pub enum ValueModel {
    Bool(bool),
    U8(u8),
    I8(i8),
    U16(u16),
    I16(i16),
    U32(u32),
    I32(i32),
    U64(u64),
    I64(i64),
    U128(u128),
    I128(i128),
    F32Bits(u32),
    F64Bits(u64),
    Pointer(u64),
    Text(Seq<char>),
    Array(Seq<ValueModel>),
    Struct(Seq<ValueModel>),
    EnumVariant(usize),
}

impl Value {
    /// The mathematical image of this value.
    pub open spec fn model(self) -> ValueModel
        decreases self,
    {
        match self {
            Value::Bool(x) => ValueModel::Bool(x),
            Value::U8(x) => ValueModel::U8(x),
            Value::I8(x) => ValueModel::I8(x),
            Value::U16(x) => ValueModel::U16(x),
            Value::I16(x) => ValueModel::I16(x),
            Value::U32(x) => ValueModel::U32(x),
            Value::I32(x) => ValueModel::I32(x),
            Value::U64(x) => ValueModel::U64(x),
            Value::I64(x) => ValueModel::I64(x),
            Value::U128(x) => ValueModel::U128(x),
            Value::I128(x) => ValueModel::I128(x),
            Value::F32Bits(x) => ValueModel::F32Bits(x),
            Value::F64Bits(x) => ValueModel::F64Bits(x),
            Value::Pointer(x) => ValueModel::Pointer(x),
            Value::Text(s) => ValueModel::Text(s@),
            Value::Array(vs) => ValueModel::Array(model_seq(vs@)),
            Value::Struct(vs) => ValueModel::Struct(model_seq(vs@)),
            Value::EnumVariant(i) => ValueModel::EnumVariant(i),
        }
    }
}

/// The element-wise image of a sequence of values.
pub open spec fn model_seq(s: Seq<Value>) -> Seq<ValueModel>
    decreases s,
{
    if s.len() == 0 {
        Seq::empty()
    } else {
        model_seq(s.drop_last()).push(s.last().model())
    }
}

/// `model_seq` maps element-wise: it keeps the length and the image of each
/// position.
pub proof fn lemma_model_seq(s: Seq<Value>)
    ensures
        model_seq(s).len() == s.len(),
        forall|i: int| 0 <= i < s.len() ==> model_seq(s)[i] == s[i].model(),
    decreases s,
{
    if s.len() > 0 {
        lemma_model_seq(s.drop_last());
    }
}

/// Appending one value to a sequence appends its image to the sequence's image.
pub proof fn lemma_model_seq_push(s: Seq<Value>, v: Value)
    ensures
        model_seq(s.push(v)) == model_seq(s).push(v.model()),
{
    assert(s.push(v).drop_last() =~= s);
    assert(s.push(v).last() == v);
}

/// How an executable decode result must mirror its specification: the same
/// error, or a value whose image is the specified one.
pub open spec fn decode_result_matches(
    r: Result<Value, CodecError>,
    s: Result<ValueModel, CodecError>,
) -> bool {
    match r {
        Ok(v) => s == Ok::<ValueModel, CodecError>(v.model()),
        Err(e) => s == Err::<ValueModel, CodecError>(e),
    }
}

/// How an executable encode result must mirror its specification: the same
/// error, or bytes whose image is the specified sequence.
pub open spec fn encode_result_matches(
    r: Result<Vec<u8>, CodecError>,
    s: Result<Seq<u8>, CodecError>,
) -> bool {
    match r {
        Ok(v) => s == Ok::<Seq<u8>, CodecError>(v@),
        Err(e) => s == Err::<Seq<u8>, CodecError>(e),
    }
}

} // verus!
