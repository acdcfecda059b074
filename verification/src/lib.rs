//! Binary encoding over a fixed-capacity byte region, and a tagged-tree codec
//! built on it.
//!
//! A [`Buffer`] is a byte region with a read cursor and a write cursor. Types
//! that implement [`Binary`] are written to it and read back from it: numbers
//! in either byte order, variable-length integers, booleans, strings and
//! arrays behind a length prefix, optional values. The `nbt` module holds a
//! dynamically typed tree of twelve kinds of node and its codec in two wire
//! profiles.

pub mod error;
pub mod buffer;
pub mod parsed;
pub mod fixed;
pub mod order;
pub mod varint;
pub mod codec;
pub mod impls;
pub mod prefix;
pub mod nbt;

pub use crate::buffer::{Buffer, BufferView};
pub use crate::codec::Binary;
pub use crate::error::CodecError;
pub use crate::impls::numeric::{
    F32, F64, I16, I32, I64, I8, U16, U24, U32, U64, U8, V32, V64, VarI32, VarI64, VarU32, VarU64,
    W32, W64,
};
pub use crate::impls::optional::{FOption, Optional, TOption};
pub use crate::impls::other::Bool;
pub use crate::impls::sequence::{Array, RemBuf};
pub use crate::impls::string::CString;
pub use crate::nbt::binary::{decode, encode, RootNBT, MAX_DEPTH};
pub use crate::nbt::encoding::{Encoding, LittleEndian, NetworkLittleEndian};
pub use crate::nbt::tag::Tag;
pub use crate::nbt::tree::{Compound, List, NBT};
pub use crate::order::{ByteOrder, BE, LE};
pub use crate::prefix::Prefix;
