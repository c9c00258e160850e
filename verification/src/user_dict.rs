use vstd::prelude::*;
use vstd::string::{StringExecFns, StringSliceAdditionalSpecFns};
use vstd::bytes::spec_u32_to_le_bytes;
use crate::builder::{is_keyset_of, lemma_key_count_pos, surface_bad};
use crate::detail::{detail_encoding, spec_detail_view, detail_fields, encode_fields, fields_view};
use crate::entries::{serialize_entries, spec_entries_bytes};
use crate::error::BuildError;
use crate::groups::{build_keyset, entry_key, group_ok, group_start, key_count, row_covered};
use crate::offsets::{concat_with_offsets, records_view, spec_concat, spec_offset_of};
use crate::parse::{spec_parse_i16, spec_parse_u16, parse_i16, parse_u16};
use crate::sort::{key_filter, row_key, rows_sorted, rows_have_fields, sort_rows};
use crate::trie::{da_bytes_of, keyset_keys, keyset_vals, keyset_valid, TrieIndex};
use crate::word_entry::WordEntry;

verus! {

/// The cost a simplified user-dictionary row gets: strongly preferred.
pub const SIMPLE_WORD_COST: i16 = -10000;

/// The connection class a simplified user-dictionary row gets: context-free.
pub const SIMPLE_CONTEXT_ID: u16 = 0;

/// The field count of a simplified user-dictionary row.
pub const SIMPLE_USERDIC_FIELDS_NUM: usize = 3;

/// The least field count of a detailed user-dictionary row.
pub const DETAILED_USERDIC_FIELDS_NUM: usize = 13;

/// Every user row follows one of the two accepted schemas: the 3-field
/// simplified one or the full schema of 13 or more fields.
pub open spec fn user_shape_ok(rs: Seq<Vec<String>>) -> bool {
    forall|i: int| 0 <= i < rs.len() ==> (#[trigger] rs[i]@.len() == 3 || rs[i]@.len() >= 13)
}

/// The entry of user row `i`: a simplified row gets the fixed cost and the
/// context-free class; a detailed row takes its cost from field 3 and its
/// connection class from field 1, both read as written, with no surrounding
/// blanks allowed.
pub open spec fn spec_user_row_entry(rs: Seq<Vec<String>>, i: int) -> Option<WordEntry> {
    if rs[i]@.len() == 3 {
        Some(
            WordEntry {
                word_id: i as u32,
                is_system: false,
                word_cost: SIMPLE_WORD_COST,
                cost_id: SIMPLE_CONTEXT_ID,
            },
        )
    } else {
        let cost = spec_parse_i16(rs[i]@[3]@);
        let cid = spec_parse_u16(rs[i]@[1]@);
        if cost is Some && cid is Some {
            Some(
                WordEntry {
                    word_id: i as u32,
                    is_system: false,
                    word_cost: cost.unwrap(),
                    cost_id: cid.unwrap(),
                },
            )
        } else {
            None
        }
    }
}

/// Every user row's entry fields parse.
pub open spec fn user_entries_ok(rs: Seq<Vec<String>>) -> bool {
    forall|i: int| 0 <= i < rs.len() ==> #[trigger] spec_user_row_entry(rs, i) is Some
}

/// The entry of each user row, in row order.
pub open spec fn user_rows_entries(rs: Seq<Vec<String>>) -> Seq<WordEntry> {
    Seq::new(rs.len(), |i: int| spec_user_row_entry(rs, i).unwrap())
}

/// The detail columns of one user row. A simplified `(surface, POS, reading)`
/// row expands to the nine-column layout: the POS label, three POS
/// subcategories and two conjugation columns as `*`, the surface as base
/// form, the reading, and `*` for the pronunciation. A detailed row keeps its
/// own columns from field 4 on.
pub open spec fn spec_user_detail_view(row: Vec<String>) -> Seq<Seq<char>> {
    if row@.len() == 3 {
        seq![
            row@[1]@,
            "*"@,
            "*"@,
            "*"@,
            "*"@,
            "*"@,
            row@[0]@,
            row@[2]@,
            "*"@,
        ]
    } else {
        spec_detail_view(row)
    }
}

/// The encoded detail record of each user row, in row order.
pub open spec fn user_detail_records(rs: Seq<Vec<String>>) -> Seq<Seq<u8>> {
    Seq::new(rs.len(), |i: int| detail_encoding(spec_user_detail_view(rs[i])))
}

/// The artifact family of one user-dictionary build, tagged non-system.
pub struct UserDictArtifacts {
    pub rows: Vec<Vec<String>>,
    pub trie: TrieIndex,
    pub vals_data: Vec<u8>,
    pub words_data: Vec<u8>,
    pub words_idx_data: Vec<u8>,
}

impl UserDictArtifacts {
    /// The artifacts cohere, as in the main build, with the user schemas.
    pub open spec fn wf(self) -> bool {
        let rs = self.rows@;
        &&& rows_sorted(rs)
        &&& rs.len() < 0x0400_0000
        &&& user_shape_ok(rs)
        &&& self.trie.wf()
        &&& forall|q: int|
            0 <= q < self.trie.keys@.len() ==> group_ok(
                rs,
                #[trigger] self.trie.keys@[q],
                self.trie.vals@[q],
            )
        &&& forall|i: int| 0 <= i < rs.len() ==> self.trie.keys@.contains(#[trigger] row_key(rs[i]))
        &&& user_entries_ok(rs)
        &&& self.vals_data@ == spec_entries_bytes(user_rows_entries(rs))
        &&& self.words_data@ == spec_concat(user_detail_records(rs))
        &&& self.words_idx_data@.len() == 4 * rs.len()
        &&& spec_offset_of(user_detail_records(rs), rs.len() as int) <= u32::MAX
        &&& forall|i: int|
            0 <= i < rs.len() ==> self.words_idx_data@.subrange(4 * i, 4 * i + 4)
                == spec_u32_to_le_bytes(spec_offset_of(user_detail_records(rs), i) as u32)
    }

    /// Looks a surface form up, as in the main dictionary.
    pub fn lookup(&self, surface: &str) -> (r: Option<u32>)
        requires
            self.wf(),
            surface.spec_bytes().len() > 0,
            forall|b: int| 0 <= b < surface.spec_bytes().len() ==> surface.spec_bytes()[b] != 0,
        ensures
            match r {
                Some(v) => group_ok(self.rows@, surface.spec_bytes(), v),
                None => key_count(self.rows@, surface.spec_bytes()) == 0,
            },
    {
        let r = self.trie.lookup(surface);
        proof {
            let k = surface.spec_bytes();
            if self.trie.keys@.contains(k) {
                let q = choose|q: int|
                    0 <= q < self.trie.keys@.len() && self.trie.keys@[q] == k;
                assert(r == Some(self.trie.vals@[q]));
                assert(group_ok(self.rows@, k, self.trie.vals@[q]));
            } else {
                if key_count(self.rows@, k) > 0 {
                    lemma_key_count_pos(self.rows@, k);
                    let i = choose|i: int|
                        0 <= i < self.rows@.len() && row_key(#[trigger] self.rows@[i]) == k;
                    assert(self.trie.keys@.contains(row_key(self.rows@[i])));
                } else {
                    assert(key_count(self.rows@, k) == 0) by {
                        crate::groups::lemma_key_count_nonneg(self.rows@, k);
                    }
                }
            }
        }
        r
    }
}

/// What bincode's `serialize` of a lindera `UserDictionary` assembled from
/// these four byte blocks returns: a function of the blocks alone.
pub uninterp spec fn user_dictionary_encoding(
    da: Seq<u8>,
    vals: Seq<u8>,
    idx: Seq<u8>,
    words: Seq<u8>,
) -> Seq<u8>;

/// Relies on lindera-core's `PrefixDict::from_static_slice` and bincode's
/// `serialize` of the assembled `UserDictionary`, tagged non-system: the file
/// bytes are a function of the four byte blocks alone, and serializing plain
/// owned byte vectors cannot fail.
#[verifier::external_body]
fn encode_user_dictionary_raw(
    da: &Vec<u8>,
    vals: &Vec<u8>,
    idx: &Vec<u8>,
    words: &Vec<u8>,
) -> (r: Vec<u8>)
    ensures
        r@ == user_dictionary_encoding(da@, vals@, idx@, words@),
{
    let mut dict = lindera_core::dictionary::prefix_dict::PrefixDict::from_static_slice(
        da.as_slice(),
        vals.as_slice(),
    );
    dict.is_system = false;
    let user_dict = lindera_core::dictionary::UserDictionary {
        dict,
        words_idx_data: idx.clone(),
        words_data: words.clone(),
    };
    bincode::serialize(&user_dict).unwrap()
}

/// Builds a string holding one `*`.
fn star() -> (r: String)
    ensures
        r@ == "*"@,
{
    String::from_str("*")
}

/// The detail columns of one user row, as `spec_user_detail_view` lays them
/// out.
fn user_detail_fields(row: &Vec<String>) -> (r: Vec<String>)
    requires
        row@.len() == 3 || row@.len() >= 13,
    ensures
        fields_view(r@) == spec_user_detail_view(*row),
{
    if row.len() == SIMPLE_USERDIC_FIELDS_NUM {
        let mut out: Vec<String> = Vec::new();
        out.push(row[1].clone());
        out.push(star());
        out.push(star());
        out.push(star());
        out.push(star());
        out.push(star());
        out.push(row[0].clone());
        out.push(row[2].clone());
        out.push(star());
        proof {
            assert(fields_view(out@) =~= spec_user_detail_view(*row));
        }
        out
    } else {
        let r = detail_fields(row);
        r
    }
}

impl UserDictArtifacts {
    /// Packages the artifacts as the one serialized user-dictionary file:
    /// the trie, value table and detail blocks assembled into the non-system
    /// user dictionary and encoded.
    pub fn encode(&self) -> (r: Vec<u8>)
        ensures
            r@ == user_dictionary_encoding(
                self.trie.da_data@,
                self.vals_data@,
                self.words_idx_data@,
                self.words_data@,
            ),
    {
        encode_user_dictionary_raw(
            &self.trie.da_data,
            &self.vals_data,
            &self.words_idx_data,
            &self.words_data,
        )
    }
}

/// What a finished user-dictionary build guarantees, and what each error
/// says of the input.
pub open spec fn build_user_dict_post(rows: Seq<Vec<String>>, r: Result<
    UserDictArtifacts,
    BuildError,
>) -> bool {
    match r {
        Ok(d) => {
            &&& d.wf()
            &&& rows.len() > 0
            &&& d.rows@.len() == rows.len()
            &&& d.rows@.to_multiset() == rows.to_multiset()
            &&& forall|k: Seq<u8>| #[trigger] key_filter(d.rows@, k) == key_filter(rows, k)
        },
        Err(e) => match e {
            BuildError::Content => rows.len() >= 0x0400_0000 || !user_shape_ok(rows) || (exists|
                srt: Seq<Vec<String>>,
            |
                rows_sorted(srt) && #[trigger] srt.to_multiset() == rows.to_multiset() && ((exists|
                    i: int,
                | 0 <= i < srt.len() && surface_bad(#[trigger] srt[i])) || (exists|k: Seq<u8>|
                    key_count(srt, k) >= 32))),
            BuildError::Parse => exists|srt: Seq<Vec<String>>|
                rows_sorted(srt) && #[trigger] srt.to_multiset() == rows.to_multiset()
                    && !user_entries_ok(srt),
            BuildError::Serialize => exists|srt: Seq<Vec<String>>|
                rows_sorted(srt) && #[trigger] srt.to_multiset() == rows.to_multiset()
                    && spec_offset_of(user_detail_records(srt), srt.len() as int) > u32::MAX,
            BuildError::Build => exists|srt: Seq<Vec<String>>, keys: Seq<Seq<u8>>, vals: Seq<u32>|
                rows_sorted(srt) && srt.to_multiset() == rows.to_multiset()
                    && #[trigger] is_keyset_of(srt, keys, vals) && da_bytes_of(keys, vals) is None,
        },
    }
}

/// Compiles a user dictionary from its source rows: sorts them by surface
/// form, assigns entry ids from the sorted positions, and produces the same
/// artifact family as the main build, tagged non-system. A simplified 3-field
/// row gets the fixed preferred cost and the context-free class, and its
/// detail record is the nine-column expansion; a detailed row of 13 or more
/// fields is read like a main-dictionary row. A row with any other field
/// count is a content error, as are too many rows, unindexable surfaces and
/// groups of 32 or more entries; an unparseable numeric field is a parse
/// error; a words blob beyond what a
/// 32-bit offset addresses is a serialize error; a
/// refused trie construction is a build error.
pub fn build_user_dict(rows: Vec<Vec<String>>) -> (r: Result<UserDictArtifacts, BuildError>)
    ensures
        build_user_dict_post(rows@, r),
{
    if rows.len() >= crate::builder::MAX_ROWS {
        return Err(BuildError::Content);
    }
    let mut i: usize = 0;
    while i < rows.len()
        invariant
            i <= rows@.len(),
            forall|k: int| 0 <= k < i ==> (#[trigger] rows@[k]@.len() == 3 || rows@[k]@.len() >= 13),
        decreases rows@.len() - i,
    {
        if rows[i].len() != SIMPLE_USERDIC_FIELDS_NUM && rows[i].len() < DETAILED_USERDIC_FIELDS_NUM
         {
            return Err(BuildError::Content);
        }
        i = i + 1;
    }
    assert(user_shape_ok(rows@));
    assert(rows_have_fields(rows@, 1));
    let ghost rows0 = rows@;
    let srt = sort_rows(rows);
    proof {
        assert forall|k: int| 0 <= k < srt@.len() implies (#[trigger] srt@[k]@.len() == 3
            || srt@[k]@.len() >= 13) by {
            assert(rows0.contains(srt@[k]));
            let j = choose|j: int| 0 <= j < rows0.len() && rows0[j] == srt@[k];
            assert(rows0[j]@.len() == 3 || rows0[j]@.len() >= 13);
        }
        assert(user_shape_ok(srt@));
    }
    build_user_dict_sorted(srt, Ghost(rows0))
}

/// The tail of the user build, from the sorted rows on.
fn build_user_dict_sorted(srt: Vec<Vec<String>>, input: Ghost<Seq<Vec<String>>>) -> (r: Result<
    UserDictArtifacts,
    BuildError,
>)
    requires
        rows_sorted(srt@),
        rows_have_fields(srt@, 1),
        user_shape_ok(srt@),
        srt@.len() < 0x0400_0000,
        srt@.to_multiset() == input@.to_multiset(),
        srt@.len() == input@.len(),
        forall|k: Seq<u8>| #[trigger] key_filter(srt@, k) == key_filter(input@, k),
    ensures
        match r {
            Ok(d) => {
                &&& d.wf()
                &&& input@.len() > 0
                &&& d.rows@.len() == input@.len()
                &&& d.rows@.to_multiset() == input@.to_multiset()
                &&& forall|k: Seq<u8>| #[trigger] key_filter(d.rows@, k) == key_filter(input@, k)
            },
            Err(e) => match e {
                BuildError::Content => exists|s2: Seq<Vec<String>>|
                    rows_sorted(s2) && #[trigger] s2.to_multiset() == input@.to_multiset() && ((
                    exists|i: int| 0 <= i < s2.len() && surface_bad(#[trigger] s2[i])) || (
                    exists|k: Seq<u8>| key_count(s2, k) >= 32)),
                BuildError::Parse => exists|s2: Seq<Vec<String>>|
                    rows_sorted(s2) && #[trigger] s2.to_multiset() == input@.to_multiset()
                        && !user_entries_ok(s2),
                BuildError::Serialize => exists|s2: Seq<Vec<String>>|
                    rows_sorted(s2) && #[trigger] s2.to_multiset() == input@.to_multiset()
                        && spec_offset_of(user_detail_records(s2), s2.len() as int) > u32::MAX,
                BuildError::Build => exists|
                    s2: Seq<Vec<String>>,
                    keys: Seq<Seq<u8>>,
                    vals: Seq<u32>,
                |
                    rows_sorted(s2) && s2.to_multiset() == input@.to_multiset()
                        && #[trigger] is_keyset_of(s2, keys, vals) && da_bytes_of(
                        keys,
                        vals,
                    ) is None,
            },
        },
{
    let mut i2: usize = 0;
    while i2 < srt.len()
        invariant
            rows_have_fields(srt@, 1),
            rows_sorted(srt@),
            srt@.to_multiset() == input@.to_multiset(),
            i2 <= srt@.len(),
            forall|k: int| 0 <= k < i2 ==> !surface_bad(#[trigger] srt@[k]),
        decreases srt@.len() - i2,
    {
        let sb = srt[i2][0].as_str().as_bytes();
        if sb.len() == 0 {
            proof {
                assert(surface_bad(srt@[i2 as int]));
            }
            return Err(BuildError::Content);
        }
        let mut b: usize = 0;
        while b < sb.len()
            invariant
                rows_have_fields(srt@, 1),
                rows_sorted(srt@),
                srt@.to_multiset() == input@.to_multiset(),
                i2 < srt@.len(),
                sb@ == row_key(srt@[i2 as int]),
                b <= sb@.len(),
                forall|t: int| 0 <= t < b ==> #[trigger] sb@[t] != 0,
            decreases sb@.len() - b,
        {
            if sb[b] == 0 {
                proof {
                    assert(surface_bad(srt@[i2 as int]));
                }
                return Err(BuildError::Content);
            }
            b = b + 1;
        }
        i2 = i2 + 1;
    }
    let ks = match build_keyset(&srt) {
        Ok(ks) => ks,
        Err(_) => {
            return Err(BuildError::Content);
        },
    };
    proof {
        assert(keyset_valid(keyset_keys(ks@), keyset_vals(ks@))) by {
            let keys = keyset_keys(ks@);
            let vals = keyset_vals(ks@);
            assert forall|q: int| 0 <= q < keys.len() implies (#[trigger] keys[q]).len() > 0
                && (forall|t: int| 0 <= t < keys[q].len() ==> keys[q][t] != 0) && vals[q]
                < 0x8000_0000 by {
                assert(keys[q] == entry_key(ks@[q]));
                assert(vals[q] == ks@[q].1);
                assert(group_ok(srt@, entry_key(ks@[q]), ks@[q].1));
                let c = key_count(srt@, keys[q]);
                let s = group_start(ks@[q].1, c);
                assert(row_key(srt@[s]) == keys[q]);
                assert(!surface_bad(srt@[s]));
                assert(ks@[q].1 == s * 32 + c);
                assert(s * 32 + c < 0x8000_0000) by (nonlinear_arith)
                    requires
                        0 <= s,
                        0 < c < 32,
                        s + c <= 0x0400_0000,
                {}
            }
        }
    }
    let mut entries: Vec<WordEntry> = Vec::new();
    let mut i3: usize = 0;
    while i3 < srt.len()
        invariant
            user_shape_ok(srt@),
            rows_sorted(srt@),
            srt@.to_multiset() == input@.to_multiset(),
            srt@.len() < 0x0400_0000,
            i3 <= srt@.len(),
            entries@.len() == i3,
            forall|k: int|
                0 <= k < i3 ==> Some(#[trigger] entries@[k]) == spec_user_row_entry(srt@, k),
        decreases srt@.len() - i3,
    {
        let row = &srt[i3];
        if row.len() == SIMPLE_USERDIC_FIELDS_NUM {
            entries.push(
                WordEntry {
                    word_id: i3 as u32,
                    is_system: false,
                    word_cost: SIMPLE_WORD_COST,
                    cost_id: SIMPLE_CONTEXT_ID,
                },
            );
        } else {
            let cost = match parse_i16(row[3].as_str()) {
                Some(c) => c,
                None => {
                    proof {
                        assert(spec_user_row_entry(srt@, i3 as int) is None);
                        assert(!user_entries_ok(srt@));
                    }
                    return Err(BuildError::Parse);
                },
            };
            let cid = match parse_u16(row[1].as_str()) {
                Some(c) => c,
                None => {
                    proof {
                        assert(spec_user_row_entry(srt@, i3 as int) is None);
                        assert(!user_entries_ok(srt@));
                    }
                    return Err(BuildError::Parse);
                },
            };
            entries.push(
                WordEntry { word_id: i3 as u32, is_system: false, word_cost: cost, cost_id: cid },
            );
        }
        i3 = i3 + 1;
    }
    let vals_data = serialize_entries(&entries);
    proof {
        assert(entries@ =~= user_rows_entries(srt@));
    }
    proof {
        assert forall|q: int| 0 <= q < keyset_keys(ks@).len() implies group_ok(
            srt@,
            #[trigger] keyset_keys(ks@)[q],
            keyset_vals(ks@)[q],
        ) by {
            assert(keyset_keys(ks@)[q] == entry_key(ks@[q]));
            assert(keyset_vals(ks@)[q] == ks@[q].1);
        }
        assert forall|i5: int| 0 <= i5 < srt@.len() implies keyset_keys(ks@).contains(
            #[trigger] row_key(srt@[i5]),
        ) by {
            assert(row_covered(srt@, ks@, i5));
            let q = choose|q: int|
                0 <= q < ks@.len() && #[trigger] entry_key(ks@[q]) == row_key(srt@[i5]);
            assert(keyset_keys(ks@)[q] == entry_key(ks@[q]));
        }
        assert(is_keyset_of(srt@, keyset_keys(ks@), keyset_vals(ks@)));
    }
    let trie = match TrieIndex::build(&ks) {
        Ok(t) => t,
        Err(_) => {
            return Err(BuildError::Build);
        },
    };
    let mut recs: Vec<Vec<u8>> = Vec::new();
    let mut i4: usize = 0;
    while i4 < srt.len()
        invariant
            user_shape_ok(srt@),
            i4 <= srt@.len(),
            recs@.len() == i4,
            forall|k: int|
                0 <= k < i4 ==> #[trigger] recs@[k]@ == detail_encoding(
                    spec_user_detail_view(srt@[k]),
                ),
        decreases srt@.len() - i4,
    {
        let fields = user_detail_fields(&srt[i4]);
        recs.push(encode_fields(&fields));
        i4 = i4 + 1;
    }
    proof {
        assert(records_view(recs@) =~= user_detail_records(srt@));
    }
    let (words_data, words_idx_data) = match concat_with_offsets(&recs) {
        Ok(p) => p,
        Err(_) => {
            return Err(BuildError::Serialize);
        },
    };
    let d = UserDictArtifacts { rows: srt, trie, vals_data, words_data, words_idx_data };
    proof {
        let rs = d.rows@;
        assert forall|i5: int| 0 <= i5 < rs.len() implies #[trigger] spec_user_row_entry(
            rs,
            i5,
        ) is Some by {
            assert(Some(entries@[i5]) == spec_user_row_entry(rs, i5));
        }
        assert(is_keyset_of(rs, d.trie.keys@, d.trie.vals@));
        assert(input@.len() > 0) by {
            assert(ks@.len() > 0);
            assert(group_ok(rs, d.trie.keys@[0], d.trie.vals@[0]));
        }
    }
    Ok(d)
}

} // verus!
