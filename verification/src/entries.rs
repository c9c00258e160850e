use vstd::prelude::*;
use crate::error::BuildError;
use crate::parse::{spec_parse_i16, spec_parse_u16, spec_trim, parse_i16, parse_u16, trim};
use crate::sort::rows_have_fields;
use crate::word_entry::{spec_serialize_word_entry, WordEntry};

verus! {

/// The entry row `i` yields: id `i`, cost from field 3, connection class from
/// field 1, both trimmed of surrounding blanks.
pub open spec fn spec_row_entry(rs: Seq<Vec<String>>, i: int, is_system: bool) -> Option<
    WordEntry,
> {
    let cost = spec_parse_i16(spec_trim(rs[i]@[3]@));
    let cid = spec_parse_u16(spec_trim(rs[i]@[1]@));
    if cost is Some && cid is Some {
        Some(
            WordEntry {
                word_id: i as u32,
                is_system,
                word_cost: cost.unwrap(),
                cost_id: cid.unwrap(),
            },
        )
    } else {
        None
    }
}

/// Builds one `WordEntry` per row, in row order: entry `i` takes its id from
/// position `i`, its cost from field 3 and its connection class id from field
/// 1. Fails with a parse error exactly when some row's cost or class field is
/// not a decimal number in range.
pub fn build_entries(rows: &Vec<Vec<String>>, is_system: bool) -> (r: Result<
    Vec<WordEntry>,
    BuildError,
>)
    requires
        rows_have_fields(rows@, 4),
        rows@.len() < 0x0800_0000,
    ensures
        match r {
            Ok(es) => {
                &&& es@.len() == rows@.len()
                &&& forall|i: int|
                    0 <= i < rows@.len() ==> Some(#[trigger] es@[i]) == spec_row_entry(
                        rows@,
                        i,
                        is_system,
                    )
            },
            Err(e) => {
                &&& e == BuildError::Parse
                &&& exists|i: int|
                    0 <= i < rows@.len() && #[trigger] spec_row_entry(rows@, i, is_system) is None
            },
        },
{
    let mut es: Vec<WordEntry> = Vec::new();
    let mut i: usize = 0;
    while i < rows.len()
        invariant
            rows_have_fields(rows@, 4),
            rows@.len() < 0x0800_0000,
            i <= rows@.len(),
            es@.len() == i,
            forall|k: int|
                0 <= k < i ==> Some(#[trigger] es@[k]) == spec_row_entry(rows@, k, is_system),
        decreases rows@.len() - i,
    {
        let row = &rows[i];
        let cost = match parse_i16(trim(row[3].as_str())) {
            Some(c) => c,
            None => {
                proof {
                    assert(spec_row_entry(rows@, i as int, is_system) is None);
                }
                return Err(BuildError::Parse);
            },
        };
        let cid = match parse_u16(trim(row[1].as_str())) {
            Some(c) => c,
            None => {
                proof {
                    assert(spec_row_entry(rows@, i as int, is_system) is None);
                }
                return Err(BuildError::Parse);
            },
        };
        es.push(WordEntry { word_id: i as u32, is_system, word_cost: cost, cost_id: cid });
        i = i + 1;
    }
    Ok(es)
}

/// The concatenation of the fixed 8-byte encodings of the entries, in order.
pub open spec fn spec_entries_bytes(es: Seq<WordEntry>) -> Seq<u8>
    decreases es.len(),
{
    if es.len() == 0 {
        Seq::empty()
    } else {
        spec_entries_bytes(es.drop_last()) + spec_serialize_word_entry(es.last())
    }
}

/// The entry table is eight bytes per entry.
pub proof fn lemma_entries_bytes_len(es: Seq<WordEntry>)
    ensures
        spec_entries_bytes(es).len() == 8 * es.len(),
    decreases es.len(),
{
    if es.len() > 0 {
        lemma_entries_bytes_len(es.drop_last());
        crate::word_entry::lemma_word_entry_round_trip(es.last());
    }
}

/// Entry `i`'s record stands at bytes `[8 * i, 8 * i + 8)` of the table.
pub proof fn lemma_entries_bytes_slice(es: Seq<WordEntry>, i: int)
    requires
        0 <= i < es.len(),
    ensures
        spec_entries_bytes(es).subrange(8 * i, 8 * i + 8) == spec_serialize_word_entry(es[i]),
    decreases es.len(),
{
    lemma_entries_bytes_len(es);
    lemma_entries_bytes_len(es.drop_last());
    crate::word_entry::lemma_word_entry_round_trip(es.last());
    if i == es.len() - 1 {
        assert(spec_entries_bytes(es).subrange(8 * i, 8 * i + 8) =~= spec_serialize_word_entry(
            es[i],
        ));
    } else {
        lemma_entries_bytes_slice(es.drop_last(), i);
        assert(spec_entries_bytes(es).subrange(8 * i, 8 * i + 8) =~= spec_entries_bytes(
            es.drop_last(),
        ).subrange(8 * i, 8 * i + 8));
        assert(es.drop_last()[i] == es[i]);
    }
}

/// Serializes the entry table: entry `i` occupies bytes `[8 * i, 8 * i + 8)`.
pub fn serialize_entries(es: &Vec<WordEntry>) -> (r: Vec<u8>)
    ensures
        r@ == spec_entries_bytes(es@),
        r@.len() == 8 * es@.len(),
{
    let mut buf: Vec<u8> = Vec::new();
    let mut i: usize = 0;
    while i < es.len()
        invariant
            i <= es@.len(),
            buf@ == spec_entries_bytes(es@.subrange(0, i as int)),
            buf@.len() == 8 * i,
        decreases es@.len() - i,
    {
        es[i].serialize(&mut buf);
        proof {
            assert(es@.subrange(0, i + 1).drop_last() =~= es@.subrange(0, i as int));
            assert(es@.subrange(0, i + 1).last() == es@[i as int]);
            crate::word_entry::lemma_word_entry_round_trip(es@[i as int]);
        }
        i = i + 1;
    }
    proof {
        assert(es@.subrange(0, es@.len() as int) =~= es@);
    }
    buf
}

} // verus!
