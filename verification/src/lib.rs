//! A verified builder for Japanese morphological-analysis dictionaries.
//!
//! The library compiles CSV-like linguistic source tables into the binary
//! artifacts a tokenizer consumes: a double-array trie from surface forms to
//! packed entry-group indices, a flat entry-value table, variable-length
//! detail records with a parallel offset index, a dense connection-cost
//! matrix, and serialized character-definition and unknown-word tables.
//! File reading and writing stay with the caller; every function here works
//! on plain values.
//!
//! The detail records here are the generic form: each row's feature columns
//! as strings. The reduced companion encoding that resolves those columns
//! into a preprocessing stack's own closed feature model is out of scope;
//! of that path, this library covers the thirteen-column padding of the
//! detailed schema and the conjugation-type token tables.

use vstd::prelude::*;

pub mod builder;
pub mod chardef;
pub mod ctype;
pub mod detail;
pub mod entries;
pub mod error;
pub mod groups;
pub mod ingest;
pub mod matrix;
pub mod offsets;
pub mod parse;
pub mod order;
pub mod sort;
pub mod text;
pub mod trie;
pub mod user_dict;
pub mod word_entry;

verus! {

/// Packs a group's starting entry id and its length into one index value:
/// the id in the upper 27 bits, the length in the lower 5.
pub fn pack_group_value(start_id: u32, len: u32) -> (r: u32)
    requires
        start_id < 0x0800_0000,
        0 < len < 32,
    ensures
        r == start_id * 32 + len,
{
    let r = (start_id << 5u32) | len;
    assert(start_id < 0x0800_0000 && 0 < len < 32 ==> ((start_id << 5u32) | len) == start_id * 32
        + len) by (bit_vector);
    r
}

} // verus!
