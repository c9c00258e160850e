use vstd::prelude::*;
use vstd::string::StringSliceAdditionalSpecFns;
use vstd::bytes::spec_u32_to_le_bytes;
use crate::detail::{detail_encoding, spec_detail_view, detail_fields, encode_fields};
use crate::entries::{build_entries, serialize_entries, spec_row_entry, spec_entries_bytes};
use crate::error::BuildError;
use crate::groups::{build_keyset, entry_key, group_ok, group_start, key_count, row_covered};
use crate::offsets::{concat_with_offsets, records_view, spec_concat, spec_offset_of};
use crate::order::bytes_le;
use crate::sort::{key_filter, row_key, rows_sorted, rows_have_fields, sort_rows};
use crate::text::{norm_chars, normalize_rows};
use crate::trie::{da_bytes_of, keyset_keys, keyset_vals, keyset_valid, TrieIndex};
use crate::word_entry::WordEntry;

verus! {

/// The largest row count the 27-bit start-id field (packed beside a 5-bit
/// group length, within the trie's 31-bit values) can address.
pub const MAX_ROWS: usize = 0x0400_0000;

/// `nv` is `rows` with every field normalized.
pub open spec fn is_normalized_of(nv: Seq<Vec<String>>, rows: Seq<Vec<String>>) -> bool {
    &&& nv.len() == rows.len()
    &&& forall|i: int| 0 <= i < rows.len() ==> #[trigger] nv[i]@.len() == rows[i]@.len()
    &&& forall|i: int, k: int|
        0 <= i < rows.len() && 0 <= k < rows[i]@.len() ==> #[trigger] nv[i]@[k]@ == norm_chars(
            rows[i]@[k]@,
        )
}

/// `srt` holds the normalized rows of `rows`, rearranged into ascending
/// surface-form order.
pub open spec fn is_sorted_normalization(srt: Seq<Vec<String>>, rows: Seq<Vec<String>>) -> bool {
    exists|nv: Seq<Vec<String>>|
        #[trigger] is_normalized_of(nv, rows) && rows_sorted(srt) && srt.to_multiset()
            == nv.to_multiset()
}

/// As `is_sorted_normalization`, and the sort was stable: rows sharing a
/// surface form keep their pre-sort relative order.
pub open spec fn is_stable_sorted_normalization(
    srt: Seq<Vec<String>>,
    rows: Seq<Vec<String>>,
) -> bool {
    exists|nv: Seq<Vec<String>>|
        #[trigger] is_normalized_of(nv, rows) && rows_sorted(srt) && srt.to_multiset()
            == nv.to_multiset() && (forall|k: Seq<u8>|
            #[trigger] key_filter(srt, k) == key_filter(nv, k))
}

/// A surface form the trie cannot index: empty, or holding a NUL byte.
pub open spec fn surface_bad(row: Vec<String>) -> bool {
    row_key(row).len() == 0 || exists|b: int|
        0 <= b < row_key(row).len() && #[trigger] row_key(row)[b] == 0
}

/// `keys`/`vals` are the trie key set of the sorted rows: one sound packed
/// value per distinct surface, keys strictly ascending, every row's surface
/// covered.
pub open spec fn is_keyset_of(rs: Seq<Vec<String>>, keys: Seq<Seq<u8>>, vals: Seq<u32>) -> bool {
    &&& keys.len() == vals.len()
    &&& forall|q: int| 0 <= q < keys.len() ==> group_ok(rs, #[trigger] keys[q], vals[q])
    &&& forall|i: int| 0 <= i < rs.len() ==> keys.contains(#[trigger] row_key(rs[i]))
    &&& forall|p: int, q: int|
        0 <= p < q < keys.len() ==> bytes_le(#[trigger] keys[p], #[trigger] keys[q]) && keys[p]
            != keys[q]
}

/// Every row's cost and connection-class fields parse.
pub open spec fn all_entries_ok(rs: Seq<Vec<String>>, is_system: bool) -> bool {
    forall|i: int| 0 <= i < rs.len() ==> #[trigger] spec_row_entry(rs, i, is_system) is Some
}

/// The entry of each row, in row order.
pub open spec fn rows_entries(rs: Seq<Vec<String>>, is_system: bool) -> Seq<WordEntry> {
    Seq::new(rs.len(), |i: int| spec_row_entry(rs, i, is_system).unwrap())
}

/// The encoded generic detail record of each row, in row order.
pub open spec fn detail_records(rs: Seq<Vec<String>>) -> Seq<Seq<u8>> {
    Seq::new(rs.len(), |i: int| detail_encoding(spec_detail_view(rs[i])))
}

/// A key with at least one row carries some row's surface form.
pub proof fn lemma_key_count_pos(rs: Seq<Vec<String>>, k: Seq<u8>)
    requires
        key_count(rs, k) > 0,
    ensures
        exists|i: int| 0 <= i < rs.len() && row_key(#[trigger] rs[i]) == k,
    decreases rs.len(),
{
    if rs.len() > 0 {
        if row_key(rs.last()) == k {
            assert(row_key(rs[rs.len() - 1]) == k);
        } else {
            lemma_key_count_pos(rs.drop_last(), k);
            let i = choose|i: int|
                0 <= i < rs.drop_last().len() && row_key(#[trigger] rs.drop_last()[i]) == k;
            assert(row_key(rs[i]) == k);
        }
    }
}

/// The artifact family one dictionary build produces: the sorted normalized
/// rows, the surface-form trie, the flat entry-value table, and the generic
/// detail records with their offset index.
pub struct DictArtifacts {
    pub rows: Vec<Vec<String>>,
    pub trie: TrieIndex,
    pub vals_data: Vec<u8>,
    pub words_data: Vec<u8>,
    pub words_idx_data: Vec<u8>,
    pub is_system: bool,
}

impl DictArtifacts {
    /// The artifacts cohere: the trie maps each surface form of `rows` to the
    /// packed `(start, len)` of its group, the value table holds each row's
    /// entry in row order, and the words blob holds each row's encoded detail
    /// columns at the offsets the index records.
    pub open spec fn wf(self) -> bool {
        let rs = self.rows@;
        &&& rows_sorted(rs)
        &&& rs.len() < 0x0400_0000
        &&& self.trie.wf()
        &&& forall|q: int|
            0 <= q < self.trie.keys@.len() ==> group_ok(
                rs,
                #[trigger] self.trie.keys@[q],
                self.trie.vals@[q],
            )
        &&& forall|i: int| 0 <= i < rs.len() ==> self.trie.keys@.contains(#[trigger] row_key(rs[i]))
        &&& all_entries_ok(rs, self.is_system)
        &&& self.vals_data@ == spec_entries_bytes(rows_entries(rs, self.is_system))
        &&& self.words_data@ == spec_concat(detail_records(rs))
        &&& self.words_idx_data@.len() == 4 * rs.len()
        &&& spec_offset_of(detail_records(rs), rs.len() as int) <= u32::MAX
        &&& forall|i: int|
            0 <= i < rs.len() ==> self.words_idx_data@.subrange(4 * i, 4 * i + 4)
                == spec_u32_to_le_bytes(spec_offset_of(detail_records(rs), i) as u32)
    }

    /// Looks a surface form up in the trie. A surface present among the rows
    /// answers with the packed value of its group — start id and, in the low
    /// five bits, the group's length, which is the surface's multiplicity in
    /// the rows. A surface no row carries answers with nothing.
    pub fn lookup(&self, surface: &str) -> (r: Option<u32>)
        requires
            self.wf(),
            surface.spec_bytes().len() > 0,
            forall|b: int| 0 <= b < surface.spec_bytes().len() ==> surface.spec_bytes()[b] != 0,
        ensures
            match r {
                Some(v) => group_ok(self.rows@, surface.spec_bytes(), v),
                None => key_count(self.rows@, surface.spec_bytes()) == 0,
            },
    {
        let r = self.trie.lookup(surface);
        proof {
            let k = surface.spec_bytes();
            if self.trie.keys@.contains(k) {
                let q = choose|q: int|
                    0 <= q < self.trie.keys@.len() && self.trie.keys@[q] == k;
                assert(r == Some(self.trie.vals@[q]));
                assert(group_ok(self.rows@, k, self.trie.vals@[q]));
            } else {
                if key_count(self.rows@, k) > 0 {
                    lemma_key_count_pos(self.rows@, k);
                    let i = choose|i: int|
                        0 <= i < self.rows@.len() && row_key(#[trigger] self.rows@[i]) == k;
                    assert(self.trie.keys@.contains(row_key(self.rows@[i])));
                } else {
                    assert(key_count(self.rows@, k) == 0) by {
                        crate::groups::lemma_key_count_nonneg(self.rows@, k);
                    }
                }
            }
        }
        r
    }
}

/// What a finished main-dictionary build guarantees, and what each error
/// says of the input.
pub open spec fn build_dict_post(rows: Seq<Vec<String>>, r: Result<
    DictArtifacts,
    BuildError,
>) -> bool {
    match r {
        Ok(d) => {
            &&& d.wf()
            &&& d.is_system == true
            &&& rows.len() > 0
            &&& d.rows@.len() == rows.len()
            &&& rows_have_fields(d.rows@, 4)
            &&& is_stable_sorted_normalization(d.rows@, rows)
        },
        Err(e) => match e {
            BuildError::Content => rows.len() >= 0x0400_0000 || !rows_have_fields(rows, 4) || (
            exists|srt: Seq<Vec<String>>|
                #[trigger] is_sorted_normalization(srt, rows) && ((exists|i: int|
                    0 <= i < srt.len() && surface_bad(#[trigger] srt[i])) || (exists|k: Seq<u8>|
                    key_count(srt, k) >= 32))),
            BuildError::Parse => exists|srt: Seq<Vec<String>>|
                #[trigger] is_sorted_normalization(srt, rows) && !all_entries_ok(srt, true),
            BuildError::Serialize => exists|srt: Seq<Vec<String>>|
                #[trigger] is_sorted_normalization(srt, rows) && spec_offset_of(
                    detail_records(srt),
                    srt.len() as int,
                ) > u32::MAX,
            BuildError::Build => exists|srt: Seq<Vec<String>>, keys: Seq<Seq<u8>>, vals: Seq<u32>|
                is_sorted_normalization(srt, rows) && #[trigger] is_keyset_of(srt, keys, vals)
                    && da_bytes_of(keys, vals) is None,
        },
    }
}

/// Compiles the main dictionary from its source rows: normalizes the two
/// ambiguous punctuation codepoints in every field, sorts the rows by surface
/// form, assigns entry ids from the sorted positions, and produces the trie,
/// the entry-value table and the generic detail records with their offset
/// index. Rows with fewer than four fields, more rows than the id space
/// holds, unindexable surface forms and groups of 32 or more entries are
/// content errors; an unparseable cost or class field is a parse error; a
/// words blob beyond what a 32-bit offset addresses is a serialize error; and a
/// refused trie construction is a build error.
pub fn build_dict(rows: &Vec<Vec<String>>) -> (r: Result<DictArtifacts, BuildError>)
    ensures
        build_dict_post(rows@, r),
{
    if rows.len() >= MAX_ROWS {
        return Err(BuildError::Content);
    }
    let mut i: usize = 0;
    while i < rows.len()
        invariant
            i <= rows@.len(),
            forall|k: int| 0 <= k < i ==> #[trigger] rows@[k]@.len() >= 4,
        decreases rows@.len() - i,
    {
        if rows[i].len() < 4 {
            return Err(BuildError::Content);
        }
        i = i + 1;
    }
    assert(rows_have_fields(rows@, 4));
    let nv = normalize_rows(rows);
    assert(rows_have_fields(nv@, 4));
    assert(rows_have_fields(nv@, 1));
    assert(is_normalized_of(nv@, rows@));
    let ghost nv_view = nv@;
    let srt = sort_rows(nv);
    proof {
        assert(is_sorted_normalization(srt@, rows@));
        assert(is_stable_sorted_normalization(srt@, rows@));
        assert forall|k: int| 0 <= k < srt@.len() implies #[trigger] srt@[k]@.len() >= 4 by {
            assert(nv_view.contains(srt@[k]));
            let j = choose|j: int| 0 <= j < nv_view.len() && nv_view[j] == srt@[k];
            assert(nv_view[j]@.len() >= 4);
        }
    }
    build_dict_sorted(srt, Ghost(rows@))
}

/// The tail of the build, from the sorted normalized rows on.
fn build_dict_sorted(srt: Vec<Vec<String>>, input: Ghost<Seq<Vec<String>>>) -> (r: Result<
    DictArtifacts,
    BuildError,
>)
    requires
        rows_sorted(srt@),
        rows_have_fields(srt@, 4),
        srt@.len() < 0x0400_0000,
        is_sorted_normalization(srt@, input@),
        is_stable_sorted_normalization(srt@, input@),
    ensures
        match r {
            Ok(d) => {
                &&& d.wf()
                &&& d.is_system == true
                &&& input@.len() > 0
                &&& d.rows@ == srt@
                &&& rows_have_fields(d.rows@, 4)
                &&& is_stable_sorted_normalization(d.rows@, input@)
            },
            Err(e) => match e {
                BuildError::Content => exists|s2: Seq<Vec<String>>|
                    #[trigger] is_sorted_normalization(s2, input@) && ((exists|i: int|
                        0 <= i < s2.len() && surface_bad(#[trigger] s2[i])) || (exists|k: Seq<u8>|
                        key_count(s2, k) >= 32)),
                BuildError::Parse => exists|s2: Seq<Vec<String>>|
                    #[trigger] is_sorted_normalization(s2, input@) && !all_entries_ok(s2, true),
                BuildError::Serialize => exists|s2: Seq<Vec<String>>|
                    #[trigger] is_sorted_normalization(s2, input@) && spec_offset_of(
                        detail_records(s2),
                        s2.len() as int,
                    ) > u32::MAX,
                BuildError::Build => exists|
                    s2: Seq<Vec<String>>,
                    keys: Seq<Seq<u8>>,
                    vals: Seq<u32>,
                |
                    is_sorted_normalization(s2, input@) && #[trigger] is_keyset_of(s2, keys, vals)
                        && da_bytes_of(keys, vals) is None,
            },
        },
{
    let mut i: usize = 0;
    while i < srt.len()
        invariant
            rows_have_fields(srt@, 1),
            is_sorted_normalization(srt@, input@),
            i <= srt@.len(),
            forall|k: int| 0 <= k < i ==> !surface_bad(#[trigger] srt@[k]),
        decreases srt@.len() - i,
    {
        let sb = srt[i][0].as_str().as_bytes();
        if sb.len() == 0 {
            proof {
                assert(surface_bad(srt@[i as int]));
            }
            return Err(BuildError::Content);
        }
        let mut b: usize = 0;
        while b < sb.len()
            invariant
                rows_have_fields(srt@, 1),
                is_sorted_normalization(srt@, input@),
                i < srt@.len(),
                sb@ == row_key(srt@[i as int]),
                b <= sb@.len(),
                forall|t: int| 0 <= t < b ==> #[trigger] sb@[t] != 0,
            decreases sb@.len() - b,
        {
            if sb[b] == 0 {
                proof {
                    assert(surface_bad(srt@[i as int]));
                }
                return Err(BuildError::Content);
            }
            b = b + 1;
        }
        i = i + 1;
    }
    let ks = match build_keyset(&srt) {
        Ok(ks) => ks,
        Err(_) => {
            return Err(BuildError::Content);
        },
    };
    proof {
        assert(keyset_valid(keyset_keys(ks@), keyset_vals(ks@))) by {
            let keys = keyset_keys(ks@);
            let vals = keyset_vals(ks@);
            assert forall|q: int| 0 <= q < keys.len() implies (#[trigger] keys[q]).len() > 0
                && (forall|t: int| 0 <= t < keys[q].len() ==> keys[q][t] != 0) && vals[q]
                < 0x8000_0000 by {
                assert(keys[q] == entry_key(ks@[q]));
                assert(vals[q] == ks@[q].1);
                assert(group_ok(srt@, entry_key(ks@[q]), ks@[q].1));
                let c = key_count(srt@, keys[q]);
                let s = group_start(ks@[q].1, c);
                assert(row_key(srt@[s]) == keys[q]);
                assert(!surface_bad(srt@[s]));
                assert(ks@[q].1 == s * 32 + c);
                assert(s * 32 + c < 0x8000_0000) by (nonlinear_arith)
                    requires
                        0 <= s,
                        0 < c < 32,
                        s + c <= 0x0400_0000,
                {}
            }
        }
    }
    let entries = match build_entries(&srt, true) {
        Ok(es) => es,
        Err(_) => {
            proof {
                assert(!all_entries_ok(srt@, true));
            }
            return Err(BuildError::Parse);
        },
    };
    let vals_data = serialize_entries(&entries);
    proof {
        assert(entries@ =~= rows_entries(srt@, true));
    }
    proof {
        assert forall|q: int| 0 <= q < keyset_keys(ks@).len() implies group_ok(
            srt@,
            #[trigger] keyset_keys(ks@)[q],
            keyset_vals(ks@)[q],
        ) by {
            assert(keyset_keys(ks@)[q] == entry_key(ks@[q]));
            assert(keyset_vals(ks@)[q] == ks@[q].1);
        }
        assert forall|i3: int| 0 <= i3 < srt@.len() implies keyset_keys(ks@).contains(
            #[trigger] row_key(srt@[i3]),
        ) by {
            assert(row_covered(srt@, ks@, i3));
            let q = choose|q: int|
                0 <= q < ks@.len() && #[trigger] entry_key(ks@[q]) == row_key(srt@[i3]);
            assert(keyset_keys(ks@)[q] == entry_key(ks@[q]));
        }
        assert(is_keyset_of(srt@, keyset_keys(ks@), keyset_vals(ks@)));
    }
    let trie = match TrieIndex::build(&ks) {
        Ok(t) => t,
        Err(_) => {
            return Err(BuildError::Build);
        },
    };
    let mut recs: Vec<Vec<u8>> = Vec::new();
    let mut i2: usize = 0;
    while i2 < srt.len()
        invariant
            rows_have_fields(srt@, 4),
            i2 <= srt@.len(),
            recs@.len() == i2,
            forall|k: int|
                0 <= k < i2 ==> #[trigger] recs@[k]@ == detail_encoding(spec_detail_view(srt@[k])),
        decreases srt@.len() - i2,
    {
        let fields = detail_fields(&srt[i2]);
        recs.push(encode_fields(&fields));
        i2 = i2 + 1;
    }
    proof {
        assert(records_view(recs@) =~= detail_records(srt@));
    }
    let (words_data, words_idx_data) = match concat_with_offsets(&recs) {
        Ok(p) => p,
        Err(_) => {
            return Err(BuildError::Serialize);
        },
    };
    let d = DictArtifacts {
        rows: srt,
        trie,
        vals_data,
        words_data,
        words_idx_data,
        is_system: true,
    };
    proof {
        let rs = d.rows@;
        assert forall|i4: int| 0 <= i4 < rs.len() implies #[trigger] spec_row_entry(
            rs,
            i4,
            true,
        ) is Some by {
            assert(Some(entries@[i4]) == spec_row_entry(rs, i4, true));
        }
        assert(is_keyset_of(rs, d.trie.keys@, d.trie.vals@));
        assert(input@.len() > 0) by {
            broadcast use vstd::seq_lib::group_to_multiset_ensures;

            assert(ks@.len() > 0);
            assert(group_ok(rs, d.trie.keys@[0], d.trie.vals@[0]));
            assert(rs.len() > 0);
            let nv = choose|nv: Seq<Vec<String>>|
                #[trigger] is_normalized_of(nv, input@) && rows_sorted(srt@)
                    && srt@.to_multiset() == nv.to_multiset();
            assert(srt@.len() == srt@.to_multiset().len());
            assert(nv.len() == nv.to_multiset().len());
        }
    }
    Ok(d)
}

/// The offset-index law for the words artifact: offsets never decrease, and
/// the byte range `[offset(i), offset(i+1))` of the words blob is exactly row
/// `i`'s encoded detail record (the last record running to the blob's end).
pub proof fn lemma_words_slice(d: DictArtifacts, i: int)
    requires
        d.wf(),
        0 <= i < d.rows@.len(),
    ensures
        spec_offset_of(detail_records(d.rows@), i) <= spec_offset_of(
            detail_records(d.rows@),
            i + 1,
        ) <= d.words_data@.len(),
        d.words_data@.subrange(
            spec_offset_of(detail_records(d.rows@), i),
            spec_offset_of(detail_records(d.rows@), i + 1),
        ) == detail_encoding(spec_detail_view(d.rows@[i])),
{
    let recs = detail_records(d.rows@);
    crate::offsets::lemma_offset_monotone(recs, i, i + 1);
    crate::offsets::lemma_offset_monotone(recs, i + 1, recs.len() as int);
    crate::offsets::lemma_concat_len(recs);
    crate::offsets::lemma_concat_slice(recs, i);
}

/// The group-length law: a build only succeeds when every surface form has
/// fewer than 32 entries, the most the packed value's 5-bit length holds.
pub proof fn lemma_groups_bounded(d: DictArtifacts, k: Seq<u8>)
    requires
        d.wf(),
    ensures
        key_count(d.rows@, k) < 32,
{
    crate::groups::lemma_key_count_nonneg(d.rows@, k);
    if key_count(d.rows@, k) > 0 {
        lemma_key_count_pos(d.rows@, k);
        let i = choose|i: int| 0 <= i < d.rows@.len() && row_key(#[trigger] d.rows@[i]) == k;
        assert(d.trie.keys@.contains(row_key(d.rows@[i])));
        let q = choose|q: int| 0 <= q < d.trie.keys@.len() && d.trie.keys@[q] == k;
        assert(group_ok(d.rows@, d.trie.keys@[q], d.trie.vals@[q]));
    }
}

/// The entry-value law: row `i`'s entry, with its id equal to `i`, stands at
/// bytes `[8 * i, 8 * i + 8)` of the value table, so a group's trie value
/// addresses its entries by `start * 8`.
pub proof fn lemma_vals_slice(d: DictArtifacts, i: int)
    requires
        d.wf(),
        0 <= i < d.rows@.len(),
    ensures
        d.vals_data@.len() == 8 * d.rows@.len(),
        spec_row_entry(d.rows@, i, d.is_system) is Some,
        d.vals_data@.subrange(8 * i, 8 * i + 8) == crate::word_entry::spec_serialize_word_entry(
            spec_row_entry(d.rows@, i, d.is_system).unwrap(),
        ),
        spec_row_entry(d.rows@, i, d.is_system).unwrap().word_id == i,
{
    let es = rows_entries(d.rows@, d.is_system);
    crate::entries::lemma_entries_bytes_len(es);
    crate::entries::lemma_entries_bytes_slice(es, i);
}

/// The dictionary builder: one value bundling the compilation entry points
/// for the main-dictionary family of source tables.
pub struct IpadicBuilder {}

impl IpadicBuilder {
    pub fn new() -> (r: IpadicBuilder)
        ensures
            r == (IpadicBuilder {  }),
    {
        IpadicBuilder {  }
    }

    /// Compiles the main dictionary; see `build_dict`.
    pub fn build_dict(&self, rows: &Vec<Vec<String>>) -> (r: Result<DictArtifacts, BuildError>)
        ensures
            build_dict_post(rows@, r),
    {
        build_dict(rows)
    }

    /// Compiles a user dictionary; see `build_user_dict`.
    pub fn build_user_dict(&self, rows: Vec<Vec<String>>) -> (r: Result<
        crate::user_dict::UserDictArtifacts,
        BuildError,
    >)
        ensures
            crate::user_dict::build_user_dict_post(rows@, r),
    {
        crate::user_dict::build_user_dict(rows)
    }

    /// Compiles the connection-cost table; see `build_cost_matrix`.
    pub fn build_cost_matrix(&self, text: &str) -> (r: Result<Vec<u8>, BuildError>)
        ensures
            crate::matrix::build_cost_matrix_post(text@, r),
    {
        crate::matrix::build_cost_matrix(text)
    }

    /// Compiles a character-definition table; see `build_chardef`.
    pub fn build_chardef(&self, content: &str) -> (r: Result<
        (crate::chardef::CharDefs, Vec<u8>),
        BuildError,
    >)
        ensures
            crate::chardef::build_chardef_post(content@, r),
    {
        crate::chardef::build_chardef(content)
    }

    /// Compiles an unknown-word table; see `build_unk`.
    pub fn build_unk(&self, chardef: &crate::chardef::CharDefs, content: &str) -> (r: Result<
        Vec<u8>,
        BuildError,
    >)
        requires
            chardef.wf(),
        ensures
            crate::chardef::build_unk_post(chardef.src(), content@, r),
    {
        crate::chardef::build_unk(chardef, content)
    }
}

impl Default for IpadicBuilder {
    fn default() -> (r: IpadicBuilder)
        ensures
            r == (IpadicBuilder {  }),
    {
        IpadicBuilder::new()
    }
}

} // verus!
