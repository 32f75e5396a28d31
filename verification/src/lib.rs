//! A verified codec for the binary blueprint files of a factory-building
//! game: a clear-text header over a zlib-compressed body of typed,
//! recursively tagged property trees. Every parser states what bytes it
//! accepts and proves that what it returns re-serializes to exactly the
//! bytes it consumed; every serializer is proved to emit the wire
//! encoding its specification defines.
#![verifier::loop_isolation(false)]
pub mod actor_header;
pub mod bp_write;
pub mod blueprint;
pub mod body;
pub mod body_header;
pub mod byte_property;
pub mod error;
pub mod property_list;
pub mod requirements;
pub mod resource;
pub mod float_property;
pub mod fstring;
pub mod header;
pub mod object_property;
pub mod object_ref;
pub mod primitive;
pub mod utf8;
pub mod zlib;

pub use error::ParseError;

use vstd::prelude::*;

verus! {

/// Reads a little-endian `i32` from the first four bytes of `bytes`, if present.
pub fn next_i32(bytes: &[u8]) -> (r: Option<i32>)
    ensures
        match r {
            Some(v) => bytes@.len() >= 4 && v == vstd::bytes::spec_u32_from_le_bytes(
                bytes@.subrange(0, 4),
            ) as i32,
            None => bytes@.len() < 4,
        },
{
    if bytes.len() < 4 {
        return None;
    }
    let sub = vstd::slice::slice_subrange(bytes, 0, 4);
    let v = vstd::bytes::u32_from_le_bytes(sub);
    Some(v as i32)
}

/// Reads a little-endian `i64` from the first eight bytes of `bytes`, if present.
pub fn next_i64(bytes: &[u8]) -> (r: Option<i64>)
    ensures
        match r {
            Some(v) => bytes@.len() >= 8 && v == vstd::bytes::spec_u64_from_le_bytes(
                bytes@.subrange(0, 8),
            ) as i64,
            None => bytes@.len() < 8,
        },
{
    if bytes.len() < 8 {
        return None;
    }
    let sub = vstd::slice::slice_subrange(bytes, 0, 8);
    let v = vstd::bytes::u64_from_le_bytes(sub);
    Some(v as i64)
}

} // verus!
