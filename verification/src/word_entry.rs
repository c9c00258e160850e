use vstd::prelude::*;
use vstd::bytes::{
    spec_u16_to_le_bytes, spec_u16_from_le_bytes, spec_u32_to_le_bytes, spec_u32_from_le_bytes,
    u16_to_le_bytes, u16_from_le_bytes, u32_to_le_bytes, u32_from_le_bytes,
    lemma_auto_spec_u16_to_from_le_bytes, lemma_auto_spec_u32_to_from_le_bytes,
};
use vstd::slice::slice_subrange;

verus! {

/// The number of bytes one serialized `WordEntry` occupies.
pub const WORD_ENTRY_LEN: usize = 8;

/// One dictionary entry: a sequence id (with a system-dictionary tag that is
/// carried alongside, not serialized), a word cost and a connection class id.
///
/// The id is assigned from the position of the entry's row in the sorted row
/// order, not from the order the rows were read in.
#[derive(Clone, Copy, Debug, PartialEq, Eq, Structural)]
pub struct WordEntry {
    pub word_id: u32,
    pub is_system: bool,
    pub word_cost: i16,
    pub cost_id: u16,
}

/// The fixed 8-byte little-endian encoding of one entry:
/// 4 bytes id, 2 bytes cost (two's complement), 2 bytes connection class id.
pub open spec fn spec_serialize_word_entry(e: WordEntry) -> Seq<u8> {
    spec_u32_to_le_bytes(e.word_id) + spec_u16_to_le_bytes(e.word_cost as u16)
        + spec_u16_to_le_bytes(e.cost_id)
}

/// Decoding of the first 8 bytes of `data` into an entry tagged `is_system`.
pub open spec fn spec_deserialize_word_entry(data: Seq<u8>, is_system: bool) -> WordEntry {
    WordEntry {
        word_id: spec_u32_from_le_bytes(data.subrange(0, 4)),
        is_system,
        word_cost: spec_u16_from_le_bytes(data.subrange(4, 6)) as i16,
        cost_id: spec_u16_from_le_bytes(data.subrange(6, 8)),
    }
}

impl WordEntry {
    /// Appends the 8-byte encoding of this entry to `buf`.
    pub fn serialize(&self, buf: &mut Vec<u8>)
        ensures
            final(buf)@ == old(buf)@ + spec_serialize_word_entry(*self),
    {
        proof {
            lemma_auto_spec_u16_to_from_le_bytes();
            lemma_auto_spec_u32_to_from_le_bytes();
        }
        let id_bytes = u32_to_le_bytes(self.word_id);
        let cost_bytes = u16_to_le_bytes(#[verifier::truncate] (self.word_cost as u16));
        let cid_bytes = u16_to_le_bytes(self.cost_id);
        push_all(buf, &id_bytes);
        push_all(buf, &cost_bytes);
        push_all(buf, &cid_bytes);
        assert(buf@ =~= old(buf)@ + spec_serialize_word_entry(*self));
    }

    /// Reads the entry encoded in `data[at .. at + 8]`, tagging it `is_system`.
    pub fn deserialize(data: &[u8], at: usize, is_system: bool) -> (r: WordEntry)
        requires
            at + WORD_ENTRY_LEN <= data@.len(),
        ensures
            r == spec_deserialize_word_entry(data@.subrange(at as int, at + WORD_ENTRY_LEN), is_system),
    {
        let n = data.len();
        assert(at + WORD_ENTRY_LEN <= n);
        let id_bytes = slice_subrange(data, at, at + 4);
        let cost_bytes = slice_subrange(data, at + 4, at + 6);
        let cid_bytes = slice_subrange(data, at + 6, at + 8);
        let word_id = u32_from_le_bytes(id_bytes);
        let word_cost = #[verifier::truncate] (u16_from_le_bytes(cost_bytes) as i16);
        let cost_id = u16_from_le_bytes(cid_bytes);
        proof {
            let whole = data@.subrange(at as int, at + WORD_ENTRY_LEN);
            assert(id_bytes@ =~= whole.subrange(0, 4));
            assert(cost_bytes@ =~= whole.subrange(4, 6));
            assert(cid_bytes@ =~= whole.subrange(6, 8));
        }
        WordEntry { word_id, is_system, word_cost, cost_id }
    }
}

/// Serializing an entry and decoding the bytes again yields the identical
/// `(word_id, word_cost, cost_id)` triple, with the system tag as supplied.
pub proof fn lemma_word_entry_round_trip(e: WordEntry)
    ensures
        spec_serialize_word_entry(e).len() == WORD_ENTRY_LEN,
        spec_deserialize_word_entry(spec_serialize_word_entry(e), e.is_system) == e,
{
    lemma_auto_spec_u16_to_from_le_bytes();
    lemma_auto_spec_u32_to_from_le_bytes();
    let s = spec_serialize_word_entry(e);
    assert(s.subrange(0, 4) =~= spec_u32_to_le_bytes(e.word_id));
    assert(s.subrange(4, 6) =~= spec_u16_to_le_bytes(e.word_cost as u16));
    assert(s.subrange(6, 8) =~= spec_u16_to_le_bytes(e.cost_id));
    let c = e.word_cost;
    assert((c as u16) as i16 == c) by (bit_vector);
}

/// Appends every byte of `src` to `dst`, in order.
pub fn push_all(dst: &mut Vec<u8>, src: &Vec<u8>)
    ensures
        final(dst)@ == old(dst)@ + src@,
{
    let mut i: usize = 0;
    while i < src.len()
        invariant
            i <= src@.len(),
            dst@ == old(dst)@ + src@.subrange(0, i as int),
        decreases src@.len() - i,
    {
        dst.push(src[i]);
        i = i + 1;
        assert(dst@ =~= old(dst)@ + src@.subrange(0, i as int));
    }
    assert(dst@ =~= old(dst)@ + src@);
}

} // verus!
