use vstd::prelude::*;
use vstd::multiset::Multiset;
use vstd::seq_lib::lemma_multiset_commutative;
use vstd::string::StringSliceAdditionalSpecFns;
use vstd::utf8::encode_utf8;
use crate::order::{bytes_le, lemma_bytes_le_total, lemma_bytes_le_transitive};
use crate::text::str_le;

verus! {

/// The sort key of a row: the bytes of its surface form, field 0.
pub open spec fn row_key(row: Vec<String>) -> Seq<u8> {
    if row@.len() == 0 {
        Seq::empty()
    } else {
        encode_utf8(row@[0]@)
    }
}

/// Rows stand in ascending surface-form order.
pub open spec fn rows_sorted(rs: Seq<Vec<String>>) -> bool {
    forall|i: int, j: int|
        0 <= i < j < rs.len() ==> bytes_le(#[trigger] row_key(rs[i]), #[trigger] row_key(rs[j]))
}

/// Every row has at least `n` fields.
pub open spec fn rows_have_fields(rs: Seq<Vec<String>>, n: int) -> bool {
    forall|i: int| 0 <= i < rs.len() ==> #[trigger] rs[i]@.len() >= n
}

/// The rows carrying one surface-form key, kept in order.
pub open spec fn key_filter(rs: Seq<Vec<String>>, k: Seq<u8>) -> Seq<Vec<String>> {
    rs.filter(|row: Vec<String>| row_key(row) == k)
}

/// A one-element sequence filters to itself or to nothing.
proof fn lemma_filter_singleton(x: Vec<String>, pred: spec_fn(Vec<String>) -> bool)
    ensures
        seq![x].filter(pred) == if pred(x) {
            seq![x]
        } else {
            Seq::<Vec<String>>::empty()
        },
{
    reveal(Seq::filter);
    assert(seq![x].drop_last() =~= Seq::<Vec<String>>::empty());
    assert(Seq::<Vec<String>>::empty().filter(pred) =~= Seq::<Vec<String>>::empty());
    assert(seq![x].last() == x);
}

/// A sequence none of whose elements satisfy the predicate filters to nothing.
proof fn lemma_filter_all_excluded(s: Seq<Vec<String>>, pred: spec_fn(Vec<String>) -> bool)
    requires
        forall|i: int| 0 <= i < s.len() ==> !pred(#[trigger] s[i]),
    ensures
        s.filter(pred) == Seq::<Vec<String>>::empty(),
    decreases s.len(),
{
    reveal(Seq::filter);
    if s.len() > 0 {
        lemma_filter_all_excluded(s.drop_last(), pred);
        assert(!pred(s.last()));
    }
}

/// Inserting an element anywhere adds exactly it to the sequence's multiset.
proof fn lemma_insert_to_multiset(s: Seq<Vec<String>>, j: int, x: Vec<String>)
    requires
        0 <= j <= s.len(),
    ensures
        s.insert(j, x).to_multiset() == s.to_multiset().insert(x),
{
    broadcast use vstd::seq_lib::group_to_multiset_ensures;

    assert(s.insert(j, x) =~= s.take(j).push(x) + s.skip(j));
    lemma_multiset_commutative(s.take(j).push(x), s.skip(j));
    lemma_multiset_commutative(s.take(j), s.skip(j));
    assert(s.take(j) + s.skip(j) =~= s);
    assert(s.take(j).push(x).to_multiset() =~= s.take(j).to_multiset().insert(x));
    assert(s.take(j).to_multiset().insert(x).add(s.skip(j).to_multiset()) =~= s.take(
        j,
    ).to_multiset().add(s.skip(j).to_multiset()).insert(x));
}

/// Compares two rows by surface form.
fn key_le(a: &Vec<String>, b: &Vec<String>) -> (r: bool)
    requires
        a@.len() >= 1,
        b@.len() >= 1,
    ensures
        r == bytes_le(row_key(*a), row_key(*b)),
{
    str_le(a[0].as_str(), b[0].as_str())
}

/// Sorts the rows by surface form (byte order, the order `str` comparison
/// gives). The result holds exactly the input rows: its multiset of rows is
/// the input's. Rows with an equal key stay together; entry ids are later
/// assigned from positions in this order.
pub fn sort_rows(rows: Vec<Vec<String>>) -> (r: Vec<Vec<String>>)
    requires
        rows_have_fields(rows@, 1),
    ensures
        rows_sorted(r@),
        r@.to_multiset() == rows@.to_multiset(),
        r@.len() == rows@.len(),
        forall|i: int| 0 <= i < r@.len() ==> rows@.contains(#[trigger] r@[i]),
        forall|k: Seq<u8>| #[trigger] key_filter(r@, k) == key_filter(rows@, k),
{
    broadcast use vstd::seq_lib::group_to_multiset_ensures;

    let ghost rows0 = rows@;
    let mut rem = rows;
    let mut out: Vec<Vec<String>> = Vec::new();
    proof {
        assert(rows0.skip(0) =~= rows0);
        assert(rows0.take(0) =~= Seq::<Vec<String>>::empty());
        assert forall|k: Seq<u8>| #[trigger] key_filter(out@, k) == key_filter(
            rows0.take(0),
        k) by {
            reveal(Seq::filter);
            assert(out@ =~= Seq::<Vec<String>>::empty());
            assert(rows0.take(0) =~= Seq::<Vec<String>>::empty());
        }
    }
    while rem.len() > 0
        invariant
            out@.to_multiset().add(rem@.to_multiset()) == rows0.to_multiset(),
            out@.len() + rem@.len() == rows0.len(),
            rem@ == rows0.skip(rows0.len() - rem@.len()),
            rows_sorted(out@),
            rows_have_fields(out@, 1),
            rows_have_fields(rem@, 1),
            forall|i: int| 0 <= i < out@.len() ==> rows0.contains(#[trigger] out@[i]),
            forall|i: int| 0 <= i < rem@.len() ==> rows0.contains(#[trigger] rem@[i]),
            forall|k: Seq<u8>|
                #[trigger] key_filter(out@, k) == key_filter(
                    rows0.take(rows0.len() - rem@.len()),
                    k,
                ),
        decreases rem@.len(),
    {
        let ghost rem_old = rem@;
        assert(rem@.contains(rem@[0]));
        let row = rem.remove(0);
        assert(rem@ =~= rem_old.remove(0));
        assert(row@.len() >= 1) by {
            assert(rem_old[0] == row);
        }
        let mut j: usize = out.len();
        while j > 0 && !key_le(&out[j - 1], &row)
            invariant
                j <= out@.len(),
                row@.len() >= 1,
                rows_sorted(out@),
                rows_have_fields(out@, 1),
                forall|k: int|
                    j <= k < out@.len() ==> bytes_le(row_key(row), row_key(#[trigger] out@[k]))
                        && !bytes_le(row_key(#[trigger] out@[k]), row_key(row)),
            decreases j,
        {
            proof {
                lemma_bytes_le_total(row_key(row), row_key(out@[j - 1]));
            }
            j = j - 1;
        }
        let ghost out_old = out@;
        let ghost jj = j as int;
        out.insert(j, row);
        proof {
            broadcast use vstd::seq_lib::group_to_multiset_ensures;

            assert(out@ == out_old.insert(jj, row));
            lemma_insert_to_multiset(out_old, jj, row);
            assert(rem_old.remove(0).to_multiset() == rem_old.to_multiset().remove(rem_old[0]));
            assert(rem@.to_multiset() == rem_old.to_multiset().remove(row));
            assert(rem_old.to_multiset().count(row) > 0) by {
                assert(rem_old.contains(row));
            }
            assert(out@.to_multiset().add(rem@.to_multiset()) =~= rows0.to_multiset());
            assert forall|a: int, b: int| 0 <= a < b < out@.len() implies bytes_le(
                #[trigger] row_key(out@[a]),
                #[trigger] row_key(out@[b]),
            ) by {
                if b < jj {
                } else if a < jj && b == jj {
                    if jj > 0 {
                        if a < jj - 1 {
                            lemma_bytes_le_transitive(
                                row_key(out_old[a]),
                                row_key(out_old[jj - 1]),
                                row_key(row),
                            );
                        }
                    }
                } else if a < jj && b > jj {
                    assert(out@[b] == out_old[b - 1]);
                    if a < jj - 1 {
                        lemma_bytes_le_transitive(
                            row_key(out_old[a]),
                            row_key(out_old[jj - 1]),
                            row_key(row),
                        );
                    }
                    lemma_bytes_le_transitive(
                        row_key(out_old[a]),
                        row_key(row),
                        row_key(out_old[b - 1]),
                    );
                } else if a == jj {
                    assert(out@[b] == out_old[b - 1]);
                } else {
                    assert(out@[a] == out_old[a - 1]);
                    assert(out@[b] == out_old[b - 1]);
                }
            }
            assert(rows0.contains(row)) by {
                assert(rem_old[0] == row);
            }
            let done_old = rows0.len() - rem_old.len();
            assert(rem@ =~= rows0.skip(rows0.len() - rem@.len())) by {
                assert(rem_old =~= rows0.skip(done_old));
                assert(rem_old.remove(0) =~= rows0.skip(done_old + 1));
            }
            assert(row == rows0[done_old]) by {
                assert(rem_old =~= rows0.skip(done_old));
            }
            let kx = row_key(row);
            assert forall|k: Seq<u8>| #[trigger] key_filter(out@, k) == key_filter(
                rows0.take(done_old + 1),
                k,
            ) by {
                let pred = |rw: Vec<String>| row_key(rw) == k;
                let pre = rows0.take(done_old);
                assert(key_filter(out_old, k) == key_filter(pre, k));
                assert(rows0.take(done_old + 1) =~= pre + seq![row]);
                Seq::filter_distributes_over_add(pre, seq![row], pred);
                lemma_filter_singleton(row, pred);
                assert(out@ =~= out_old.take(jj) + seq![row] + out_old.skip(jj));
                Seq::filter_distributes_over_add(
                    out_old.take(jj) + seq![row],
                    out_old.skip(jj),
                    pred,
                );
                Seq::filter_distributes_over_add(out_old.take(jj), seq![row], pred);
                assert(out_old =~= out_old.take(jj) + out_old.skip(jj));
                Seq::filter_distributes_over_add(out_old.take(jj), out_old.skip(jj), pred);
                if k == kx {
                    assert forall|m: int| 0 <= m < out_old.skip(jj).len() implies !pred(
                        #[trigger] out_old.skip(jj)[m],
                    ) by {
                        assert(out_old.skip(jj)[m] == out_old[jj + m]);
                        if row_key(out_old[jj + m]) == kx {
                            crate::order::lemma_bytes_le_refl(kx);
                        }
                    }
                    lemma_filter_all_excluded(out_old.skip(jj), pred);
                    assert(key_filter(out@, k) =~= key_filter(out_old, k) + seq![row]);
                    assert(key_filter(rows0.take(done_old + 1), k) =~= key_filter(pre, k)
                        + seq![row]);
                } else {
                    assert(!pred(row));
                    assert(key_filter(out@, k) =~= key_filter(out_old, k));
                    assert(key_filter(rows0.take(done_old + 1), k) =~= key_filter(pre, k));
                }
            }
        }
    }
    proof {
        broadcast use vstd::seq_lib::group_to_multiset_ensures;

        assert(rem@.to_multiset() =~= Multiset::<Vec<String>>::empty());
        assert(out@.to_multiset() =~= rows0.to_multiset());
        assert(out@.len() == rows0.len());
        assert(rows0.take(rows0.len() as int) =~= rows0);
        assert forall|k: Seq<u8>| #[trigger] key_filter(out@, k) == key_filter(rows0, k) by {
            assert(key_filter(out@, k) == key_filter(rows0.take(rows0.len() as int), k));
        }
    }
    out
}

} // verus!
