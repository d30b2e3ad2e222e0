//! A branchless variable-length integer codec.
//!
//! Values are stored base-128: each byte of an encoding carries 7 payload
//! bits in its low bits and a continuation flag in its high bit. Instead of
//! scanning byte by byte, the codec works on a whole little-endian 64-bit
//! word at once, using mask-directed bit gather/scatter primitives and a
//! popcount over the continuation flags.
//!
//! [`bits`] holds the verified bit-parallel primitives; [`codec`] holds the
//! encoder and the decoders built on them.

pub mod bits;
pub mod codec;

pub use bits::{pdep, pext, popcount};
pub use codec::{decode_var_int, decode_var_int32, encode_var_int, DecodeError, EncodeError};
