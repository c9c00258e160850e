use vstd::prelude::*;
use vstd::string::StringSliceAdditionalSpecFns;
use crate::error::BuildError;
use crate::groups::entry_key;
use crate::order::bytes_le;

verus! {

/// What yada's `DoubleArrayBuilder::build` returns on this key set: the
/// construction is deterministic over the keys and values alone.
pub uninterp spec fn da_bytes_of(keys: Seq<Seq<u8>>, vals: Seq<u32>) -> Option<Seq<u8>>;

/// What yada's `DoubleArray::exact_match_search` returns on this double array
/// and key: a function of the array bytes and the key bytes alone.
pub uninterp spec fn da_lookup(da: Seq<u8>, key: Seq<u8>) -> Option<u32>;

/// A key set the double-array builder accepts: keys strictly ascending (so
/// unique), non-empty, free of NUL bytes, and values within the 31 bits a
/// leaf stores.
pub open spec fn keyset_valid(keys: Seq<Seq<u8>>, vals: Seq<u32>) -> bool {
    &&& keys.len() == vals.len()
    &&& forall|p: int, q: int|
        0 <= p < q < keys.len() ==> bytes_le(#[trigger] keys[p], #[trigger] keys[q]) && keys[p]
            != keys[q]
    &&& forall|j: int| 0 <= j < keys.len() ==> (#[trigger] keys[j]).len() > 0
    &&& forall|j: int, b: int|
        0 <= j < keys.len() && 0 <= b < keys[j].len() ==> (#[trigger] keys[j][b]) != 0
    &&& forall|j: int| 0 <= j < vals.len() ==> (#[trigger] vals[j]) < 0x8000_0000
}

/// The key bytes of each keyset entry, in order.
pub open spec fn keyset_keys(ks: Seq<(String, u32)>) -> Seq<Seq<u8>> {
    ks.map_values(|e: (String, u32)| entry_key(e))
}

/// The packed value of each keyset entry, in order.
pub open spec fn keyset_vals(ks: Seq<(String, u32)>) -> Seq<u32> {
    ks.map_values(|e: (String, u32)| e.1)
}

/// The double array `da` is a build result whose lookups return exactly the
/// values stored for `keys`, and nothing for any other NUL-free key.
pub open spec fn trie_wf(da: Seq<u8>, keys: Seq<Seq<u8>>, vals: Seq<u32>) -> bool {
    &&& keyset_valid(keys, vals)
    &&& da_bytes_of(keys, vals) == Some(da)
    &&& forall|j: int| 0 <= j < keys.len() ==> da_lookup(da, #[trigger] keys[j]) == Some(vals[j])
    &&& forall|k: Seq<u8>|
        k.len() > 0 && (forall|b: int| 0 <= b < k.len() ==> k[b] != 0) && !keys.contains(k)
            ==> #[trigger] da_lookup(da, k) is None
}

/// Relies on yada's `DoubleArrayBuilder::build` on a sorted, unique, NUL-free
/// key set with 31-bit values: the construction is deterministic, it refuses
/// an empty key set, and on success exact-match lookup of each inserted key
/// finds its value while any other key finds nothing.
#[verifier::external_body]
fn da_build(keyset: &Vec<(String, u32)>) -> (r: Option<Vec<u8>>)
    requires
        keyset_valid(keyset_keys(keyset@), keyset_vals(keyset@)),
    ensures
        match r {
            Some(da) => trie_wf(da@, keyset_keys(keyset@), keyset_vals(keyset@)),
            None => da_bytes_of(keyset_keys(keyset@), keyset_vals(keyset@)) is None,
        },
        keyset@.len() == 0 ==> r is None,
{
    yada::builder::DoubleArrayBuilder::build(keyset.as_slice()).ok()
}

/// Relies on yada's `DoubleArray::exact_match_search` on an array the builder
/// produced, with a non-empty NUL-free key: returns the value reachable under
/// that key.
#[verifier::external_body]
fn da_search(da: &Vec<u8>, key: &str) -> (r: Option<u32>)
    requires
        exists|keys: Seq<Seq<u8>>, vals: Seq<u32>| trie_wf(da@, keys, vals),
        key.spec_bytes().len() > 0,
        forall|b: int| 0 <= b < key.spec_bytes().len() ==> key.spec_bytes()[b] != 0,
    ensures
        r == da_lookup(da@, key.spec_bytes()),
{
    match yada::DoubleArray::new(da.as_slice()) {
        Ok(arr) => arr.exact_match_search(key),
        Err(_) => None,
    }
}

/// The surface-form index: a double-array trie from surface-form bytes to the
/// packed `(group start id, group length)` value of that surface's entry
/// group. The ghost fields record which keys and values the trie was built
/// from.
pub struct TrieIndex {
    pub da_data: Vec<u8>,
    pub keys: Ghost<Seq<Seq<u8>>>,
    pub vals: Ghost<Seq<u32>>,
}

impl TrieIndex {
    /// The trie serves exactly the recorded keys and values.
    pub open spec fn wf(self) -> bool {
        trie_wf(self.da_data@, self.keys@, self.vals@)
    }

    /// Builds the trie from an ascending keyset. Fails exactly when the
    /// double-array construction refuses the key set.
    pub fn build(keyset: &Vec<(String, u32)>) -> (r: Result<TrieIndex, BuildError>)
        requires
            keyset_valid(keyset_keys(keyset@), keyset_vals(keyset@)),
        ensures
            match r {
                Ok(t) => {
                    &&& t.wf()
                    &&& t.keys@ == keyset_keys(keyset@)
                    &&& t.vals@ == keyset_vals(keyset@)
                },
                Err(e) => {
                    &&& e == BuildError::Build
                    &&& da_bytes_of(keyset_keys(keyset@), keyset_vals(keyset@)) is None
                },
            },
            keyset@.len() == 0 ==> r is Err,
    {
        match da_build(keyset) {
            Some(da_data) => Ok(
                TrieIndex {
                    da_data,
                    keys: Ghost(keyset_keys(keyset@)),
                    vals: Ghost(keyset_vals(keyset@)),
                },
            ),
            None => Err(BuildError::Build),
        }
    }

    /// Looks a surface form up: the packed value stored for it, or nothing
    /// for a surface the dictionary does not index.
    pub fn lookup(&self, surface: &str) -> (r: Option<u32>)
        requires
            self.wf(),
            surface.spec_bytes().len() > 0,
            forall|b: int|
                0 <= b < surface.spec_bytes().len() ==> surface.spec_bytes()[b] != 0,
        ensures
            forall|j: int|
                0 <= j < self.keys@.len() && self.keys@[j] == surface.spec_bytes() ==> r == Some(
                    self.vals@[j],
                ),
            !self.keys@.contains(surface.spec_bytes()) ==> r is None,
    {
        let r = da_search(&self.da_data, surface);
        proof {
            if self.keys@.contains(surface.spec_bytes()) {
            }
        }
        r
    }

    /// The raw double-array bytes, for writing the trie artifact out.
    pub fn data(&self) -> (r: &Vec<u8>)
        ensures
            r@ == self.da_data@,
    {
        &self.da_data
    }
}

} // verus!
