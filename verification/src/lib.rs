//! A type-directed binary codec generator for C-like data layouts.
//!
//! The library ingests a debug-info type graph — integers, floats, pointers,
//! fixed arrays, structs, enums and type qualifiers — and, for every supported
//! type id, provides a decoder from raw bytes to a typed value and an encoder
//! back to bytes that reproduces the original memory layout exactly: declared
//! sizes, member offsets, zero padding and little-endian multi-byte values.
//!
//! The catalog itself is loaded and converted by the application at its
//! boundary; the library only ever reads it through [`types::TypeCatalog`].

pub mod codec;
pub mod driver;
pub mod error;
pub mod laws;
pub mod names;
pub mod resolve;
pub mod scalar;
pub mod sizes;
pub mod text;
pub mod types;
