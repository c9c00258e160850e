use vstd::prelude::*;
use vstd::bytes::{spec_u32_to_le_bytes, u32_to_le_bytes};
use crate::error::BuildError;
use crate::word_entry::push_all;

verus! {

/// Byte offset of record `i` inside the concatenation of `records`:
/// the sum of the lengths of the records before it.
pub open spec fn spec_offset_of(records: Seq<Seq<u8>>, i: int) -> int
    decreases i,
{
    if i <= 0 {
        0
    } else {
        spec_offset_of(records, i - 1) + records[i - 1].len()
    }
}

/// The concatenation of all records, in order.
pub open spec fn spec_concat(records: Seq<Seq<u8>>) -> Seq<u8>
    decreases records.len(),
{
    if records.len() == 0 {
        Seq::empty()
    } else {
        spec_concat(records.drop_last()) + records.last()
    }
}

/// Offsets never decrease: `spec_offset_of(records, i) <= spec_offset_of(records, j)`
/// whenever `i <= j`.
pub proof fn lemma_offset_monotone(records: Seq<Seq<u8>>, i: int, j: int)
    requires
        0 <= i <= j,
    ensures
        spec_offset_of(records, i) <= spec_offset_of(records, j),
    decreases j - i,
{
    if i < j {
        lemma_offset_monotone(records, i, j - 1);
    }
}

/// The concatenation is as long as the offset past the last record.
pub proof fn lemma_concat_len(records: Seq<Seq<u8>>)
    ensures
        spec_concat(records).len() == spec_offset_of(records, records.len() as int),
    decreases records.len(),
{
    if records.len() > 0 {
        lemma_concat_len(records.drop_last());
        assert(spec_offset_of(records.drop_last(), records.len() - 1) == spec_offset_of(
            records,
            records.len() - 1,
        )) by {
            lemma_offset_prefix(records.drop_last(), records, records.len() - 1);
        }
    }
}

/// Offsets up to `i` depend only on the first `i` records.
pub proof fn lemma_offset_prefix(a: Seq<Seq<u8>>, b: Seq<Seq<u8>>, i: int)
    requires
        0 <= i <= a.len(),
        i <= b.len(),
        forall|k: int| 0 <= k < i ==> a[k] == b[k],
    ensures
        spec_offset_of(a, i) == spec_offset_of(b, i),
    decreases i,
{
    if i > 0 {
        lemma_offset_prefix(a, b, i - 1);
    }
}

/// The byte range `[offset(i), offset(i+1))` of the concatenation is exactly
/// record `i`.
pub proof fn lemma_concat_slice(records: Seq<Seq<u8>>, i: int)
    requires
        0 <= i < records.len(),
    ensures
        spec_concat(records).subrange(
            spec_offset_of(records, i),
            spec_offset_of(records, i + 1),
        ) == records[i],
    decreases records.len(),
{
    lemma_concat_len(records);
    lemma_offset_monotone(records, 0, i);
    lemma_offset_monotone(records, i, i + 1);
    lemma_offset_monotone(records, i + 1, records.len() as int);
    assert(spec_concat(records) == spec_concat(records.drop_last()) + records.last());
    if i + 1 == records.len() {
        assert(spec_concat(records).subrange(
            spec_offset_of(records, i),
            spec_offset_of(records, i + 1),
        ) =~= records[i]) by {
            lemma_concat_len(records.drop_last());
            lemma_offset_prefix(records.drop_last(), records, i);
        }
    } else {
        lemma_concat_slice(records.drop_last(), i);
        lemma_concat_len(records.drop_last());
        lemma_offset_prefix(records.drop_last(), records, i);
        lemma_offset_prefix(records.drop_last(), records, i + 1);
        lemma_offset_monotone(records.drop_last(), i + 1, records.len() - 1);
        assert(spec_concat(records.drop_last()).len() == spec_offset_of(
            records,
            records.len() - 1,
        )) by {
            lemma_offset_prefix(records.drop_last(), records, records.len() - 1);
        }
        lemma_offset_monotone(records, i + 1, records.len() - 1);
        assert(spec_concat(records).subrange(
            spec_offset_of(records, i),
            spec_offset_of(records, i + 1),
        ) =~= spec_concat(records.drop_last()).subrange(
            spec_offset_of(records, i),
            spec_offset_of(records, i + 1),
        ));
    }
}

/// The view of each record, in order.
pub open spec fn records_view(records: Seq<Vec<u8>>) -> Seq<Seq<u8>> {
    records.map_values(|v: Vec<u8>| v@)
}

/// Concatenates variable-length serialized records into one data blob and
/// writes the parallel fixed-width offset index: entry `i` of the index is the
/// little-endian 32-bit byte offset of record `i` in the blob, so record `i`
/// occupies `[offset[i], offset[i+1])` (the last record runs to the blob's
/// end). Fails, leaving nothing written, exactly when the blob would exceed
/// what a 32-bit offset can address.
pub fn concat_with_offsets(records: &Vec<Vec<u8>>) -> (r: Result<(Vec<u8>, Vec<u8>), BuildError>)
    ensures
        match r {
            Ok((data, idx)) => {
                let rs = records_view(records@);
                &&& spec_offset_of(rs, rs.len() as int) <= u32::MAX
                &&& data@ == spec_concat(rs)
                &&& idx@.len() == 4 * rs.len()
                &&& forall|i: int|
                    0 <= i < rs.len() ==> idx@.subrange(4 * i, 4 * i + 4) == spec_u32_to_le_bytes(
                        spec_offset_of(rs, i) as u32,
                    )
            },
            Err(e) => {
                &&& e == BuildError::Serialize
                &&& spec_offset_of(records_view(records@), records@.len() as int) > u32::MAX
            },
        },
{
    let ghost rs = records_view(records@);
    let mut data: Vec<u8> = Vec::new();
    let mut idx: Vec<u8> = Vec::new();
    let mut i: usize = 0;
    while i < records.len()
        invariant
            rs == records_view(records@),
            i <= records@.len(),
            data@ =~= spec_concat(rs.subrange(0, i as int)),
            data@.len() == spec_offset_of(rs, i as int),
            data@.len() <= 0xffff_ffff,
            idx@.len() == 4 * i,
            forall|k: int|
                0 <= k < i ==> idx@.subrange(4 * k, 4 * k + 4) == spec_u32_to_le_bytes(
                    spec_offset_of(rs, k) as u32,
                ),
        decreases records@.len() - i,
    {
        let rec = &records[i];
        proof {
            assert(rs[i as int] == records@[i as int]@);
        }
        let dlen = data.len();
        let max32: usize = 0xffff_ffff;
        assert(dlen <= max32);
        if rec.len() > max32 - dlen {
            proof {
                assert(spec_offset_of(rs, i + 1) == spec_offset_of(rs, i as int)
                    + rs[i as int].len());
                assert(spec_offset_of(rs, i + 1) > u32::MAX);
                lemma_offset_monotone(rs, i + 1, rs.len() as int);
            }
            return Err(BuildError::Serialize);
        }
        let _ = dlen;
        let off_bytes = u32_to_le_bytes(dlen as u32);
        let ghost idx_old = idx@;
        push_all(&mut idx, &off_bytes);
        push_all(&mut data, rec);
        proof {
            assert(rs.subrange(0, i + 1).drop_last() =~= rs.subrange(0, i as int));
            assert(data@ =~= spec_concat(rs.subrange(0, i + 1)));
            assert forall|k: int| 0 <= k < i + 1 implies idx@.subrange(4 * k, 4 * k + 4)
                == spec_u32_to_le_bytes(spec_offset_of(rs, k) as u32) by {
                if k < i {
                    assert(idx_old.subrange(4 * k, 4 * k + 4) == spec_u32_to_le_bytes(
                        spec_offset_of(rs, k) as u32,
                    ));
                    assert(idx@.subrange(4 * k, 4 * k + 4) =~= idx_old.subrange(4 * k, 4 * k + 4));
                } else {
                    assert(idx@.subrange(4 * k, 4 * k + 4) =~= off_bytes@);
                }
            }
        }
        i = i + 1;
    }
    proof {
        assert(rs.subrange(0, rs.len() as int) =~= rs);
    }
    Ok((data, idx))
}

} // verus!
