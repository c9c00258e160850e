use vstd::prelude::*;
use vstd::string::StringSliceAdditionalSpecFns;
use vstd::utf8::encode_utf8;
use crate::error::BuildError;
use crate::order::{bytes_le, lemma_bytes_le_antisymmetric, lemma_bytes_le_transitive};
use crate::sort::{row_key, rows_sorted, rows_have_fields};
use crate::text::str_eq;
use crate::pack_group_value;

verus! {

/// How many rows carry the surface-form key `k`.
pub open spec fn key_count(rs: Seq<Vec<String>>, k: Seq<u8>) -> int
    decreases rs.len(),
{
    if rs.len() == 0 {
        0
    } else {
        key_count(rs.drop_last(), k) + if row_key(rs.last()) == k {
            1int
        } else {
            0int
        }
    }
}

/// A key's count is never negative.
pub proof fn lemma_key_count_nonneg(rs: Seq<Vec<String>>, k: Seq<u8>)
    ensures
        key_count(rs, k) >= 0,
    decreases rs.len(),
{
    if rs.len() > 0 {
        lemma_key_count_nonneg(rs.drop_last(), k);
    }
}

/// The surface-form bytes of one keyset entry.
pub open spec fn entry_key(e: (String, u32)) -> Seq<u8> {
    encode_utf8(e.0@)
}

/// The group start id a packed value of a group of length `c` encodes.
pub open spec fn group_start(v: u32, c: int) -> int {
    (v - c) / 32
}

/// Some keyset entry carries row `r`'s surface form.
pub open spec fn row_covered(rs: Seq<Vec<String>>, ks: Seq<(String, u32)>, r: int) -> bool {
    exists|q: int| 0 <= q < ks.len() && #[trigger] entry_key(ks[q]) == row_key(rs[r])
}

/// A packed trie value is sound for key `k` over the sorted rows: it encodes
/// `start * 32 + len`, where `len` is `k`'s multiplicity in the whole input
/// and the rows `[start, start + len)` are exactly the ones keyed `k`.
pub open spec fn group_ok(rs: Seq<Vec<String>>, k: Seq<u8>, v: u32) -> bool {
    let c = key_count(rs, k);
    let s = group_start(v, c);
    &&& 0 < c < 32
    &&& 0 <= s
    &&& s + c <= rs.len()
    &&& v == s * 32 + c
    &&& forall|r: int| s <= r < s + c ==> row_key(#[trigger] rs[r]) == k
}

/// In sorted rows, a run of key `k` whose neighbours differ from `k` holds
/// every occurrence of `k`.
proof fn lemma_run_characterizes(rs: Seq<Vec<String>>, k: Seq<u8>, s: int, e: int)
    requires
        rows_sorted(rs),
        0 <= s < e <= rs.len(),
        forall|r: int| s <= r < e ==> row_key(#[trigger] rs[r]) == k,
        s == 0 || row_key(rs[s - 1]) != k,
        e == rs.len() || row_key(rs[e]) != k,
    ensures
        forall|r: int| 0 <= r < rs.len() ==> (row_key(#[trigger] rs[r]) == k <==> s <= r < e),
{
    assert forall|r: int| 0 <= r < rs.len() && !(s <= r < e) implies row_key(#[trigger] rs[r])
        != k by {
        if r < s {
            if row_key(rs[r]) == k {
                if r < s - 1 {
                    assert(bytes_le(row_key(rs[r]), row_key(rs[s - 1])));
                }
                assert(bytes_le(row_key(rs[s - 1]), row_key(rs[s])));
                lemma_bytes_le_antisymmetric(row_key(rs[s - 1]), k);
            }
        } else {
            if row_key(rs[r]) == k {
                if e < r {
                    assert(bytes_le(row_key(rs[e]), row_key(rs[r])));
                }
                assert(bytes_le(row_key(rs[e - 1]), row_key(rs[e])));
                lemma_bytes_le_antisymmetric(row_key(rs[e]), k);
            }
        }
    }
}

/// Counting a key whose occurrences are exactly the positions `[s, e)`.
proof fn lemma_count_of_range(rs: Seq<Vec<String>>, k: Seq<u8>, s: int, e: int)
    requires
        0 <= s <= e <= rs.len(),
        forall|r: int| 0 <= r < rs.len() ==> (row_key(#[trigger] rs[r]) == k <==> s <= r < e),
    ensures
        key_count(rs, k) == e - s,
    decreases rs.len(),
{
    if rs.len() == 0 {
    } else {
        let d = rs.drop_last();
        let last_in = s <= rs.len() - 1 < e;
        if last_in {
            assert(e == rs.len());
            lemma_count_of_range(d, k, s, if e - 1 >= s { e - 1 } else { s });
        } else {
            assert(e <= rs.len() - 1 || s > rs.len() - 1);
            if s >= rs.len() {
                lemma_count_of_range(d, k, rs.len() - 1, rs.len() - 1);
                assert(key_count(rs, k) == 0);
            } else {
                lemma_count_of_range(d, k, s, e);
            }
        }
    }
}

/// Scans the sorted rows for runs of one surface form and builds the trie key
/// set: one `(surface, packed)` pair per distinct surface, in ascending key
/// order, with `packed = start_id * 32 + group_len`. `start_id` is the index
/// of the group's first row, so consecutive groups cover consecutive id
/// blocks. Fails with a content error exactly when some surface form has 32
/// or more entries, which the 5-bit length field cannot hold.
pub fn build_keyset(rows: &Vec<Vec<String>>) -> (r: Result<Vec<(String, u32)>, BuildError>)
    requires
        rows_sorted(rows@),
        rows_have_fields(rows@, 1),
        rows@.len() < 0x0800_0000,
    ensures
        match r {
            Ok(ks) => {
                &&& forall|q: int|
                    0 <= q < ks@.len() ==> group_ok(
                        rows@,
                        entry_key(#[trigger] ks@[q]),
                        ks@[q].1,
                    )
                &&& forall|i: int| 0 <= i < rows@.len() ==> row_covered(rows@, ks@, i)
                &&& forall|p: int, q: int|
                    0 <= p < q < ks@.len() ==> bytes_le(
                        entry_key(#[trigger] ks@[p]),
                        entry_key(#[trigger] ks@[q]),
                    ) && entry_key(ks@[p]) != entry_key(ks@[q])
            },
            Err(e) => {
                &&& e == BuildError::Content
                &&& exists|k: Seq<u8>| key_count(rows@, k) >= 32
            },
        },
{
    let n = rows.len();
    let mut ks: Vec<(String, u32)> = Vec::new();
    let mut i: usize = 0;
    while i < n
        invariant
            rows_sorted(rows@),
            rows_have_fields(rows@, 1),
            rows@.len() < 0x0800_0000,
            n == rows@.len(),
            i <= n,
            i == 0 || i == n || row_key(rows@[i - 1]) != row_key(rows@[i as int]),
            i > 0 || ks@.len() == 0,
            ks@.len() > 0 ==> i > 0 && entry_key(ks@.last()) == row_key(rows@[i - 1]),
            forall|q: int|
                0 <= q < ks@.len() ==> group_ok(rows@, entry_key(#[trigger] ks@[q]), ks@[q].1),
            forall|r: int| 0 <= r < i ==> row_covered(rows@, ks@, r),
            forall|p: int, q: int|
                0 <= p < q < ks@.len() ==> bytes_le(
                    entry_key(#[trigger] ks@[p]),
                    entry_key(#[trigger] ks@[q]),
                ) && entry_key(ks@[p]) != entry_key(ks@[q]),
        decreases n - i,
    {
        let start = i;
        let mut j = i + 1;
        while j < n && str_eq(rows[j][0].as_str(), rows[start][0].as_str())
            invariant
                rows_sorted(rows@),
                rows_have_fields(rows@, 1),
                n == rows@.len(),
                start < j <= n,
                forall|r: int|
                    start <= r < j ==> row_key(#[trigger] rows@[r]) == row_key(rows@[start as int]),
            decreases n - j,
        {
            j = j + 1;
        }
        let ghost k = row_key(rows@[start as int]);
        proof {
            lemma_run_characterizes(rows@, k, start as int, j as int);
            lemma_count_of_range(rows@, k, start as int, j as int);
        }
        if j - start >= 32 {
            proof {
                assert(key_count(rows@, k) >= 32);
            }
            return Err(BuildError::Content);
        }
        let val = pack_group_value(start as u32, (j - start) as u32);
        let surface = rows[start][0].clone();
        let ghost ks_old = ks@;
        ks.push((surface, val));
        proof {
            let e = ks@.last();
            assert(entry_key(e) == k);
            assert(group_ok(rows@, k, e.1)) by {
                assert(key_count(rows@, k) == j - start);
                assert(e.1 == (start as int) * 32 + (j - start));
                assert(group_start(e.1, j - start) == start as int) by {
                    assert(((start as int) * 32 + (j - start) - (j - start)) / 32
                        == start as int) by (nonlinear_arith);
                }
            }
            assert(forall|q: int| 0 <= q < ks@.len() - 1 ==> ks@[q] == ks_old[q]);
            if ks_old.len() > 0 {
                let prev = ks_old.last();
                assert(bytes_le(entry_key(prev), k) && entry_key(prev) != k) by {
                    assert(entry_key(prev) == row_key(rows@[start - 1]));
                    assert(bytes_le(row_key(rows@[start - 1]), row_key(rows@[start as int])));
                }
                assert forall|p: int, q: int| 0 <= p < q < ks@.len() implies bytes_le(
                    entry_key(#[trigger] ks@[p]),
                    entry_key(#[trigger] ks@[q]),
                ) && entry_key(ks@[p]) != entry_key(ks@[q]) by {
                    if q == ks@.len() - 1 {
                        if p < ks_old.len() - 1 {
                            lemma_bytes_le_transitive(
                                entry_key(ks_old[p]),
                                entry_key(prev),
                                k,
                            );
                            if entry_key(ks_old[p]) == k {
                                lemma_bytes_le_antisymmetric(entry_key(prev), k);
                            }
                        }
                    }
                }
            }
            assert forall|r: int| 0 <= r < j implies row_covered(rows@, ks@, r) by {
                if r < start {
                    assert(row_covered(rows@, ks_old, r));
                    let q0 = choose|q0: int|
                        0 <= q0 < ks_old.len() && #[trigger] entry_key(ks_old[q0]) == row_key(
                            rows@[r],
                        );
                    assert(entry_key(ks@[q0]) == row_key(rows@[r]));
                } else {
                    assert(entry_key(ks@[ks@.len() - 1]) == row_key(rows@[r]));
                }
            }
        }
        i = j;
    }
    Ok(ks)
}

} // verus!
