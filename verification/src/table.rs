//! Tables: sequences of rows in the order of their insertion, with a primary key.
use vstd::prelude::*;

verus! {

/// A row with a primary key.
pub trait Row: Sized {
    type Key;

    spec fn key(self) -> Self::Key;
}

/// No two rows have the same key.
pub open spec fn distinct_keys<R: Row>(rows: Seq<R>) -> bool {
    forall|i: int, j: int|
        0 <= i < j < rows.len() ==> (#[trigger] rows[i]).key() != (#[trigger] rows[j]).key()
}

/// The row with the key `k`, if there is one.
pub open spec fn lookup<R: Row>(rows: Seq<R>, k: R::Key) -> Option<R> {
    if exists|i: int| 0 <= i < rows.len() && (#[trigger] rows[i]).key() == k {
        Some(rows[choose|i: int| 0 <= i < rows.len() && (#[trigger] rows[i]).key() == k])
    } else {
        None
    }
}

/// A row is found by its own key.
pub proof fn lemma_lookup_at<R: Row>(rows: Seq<R>, i: int)
    requires
        distinct_keys(rows),
        0 <= i < rows.len(),
    ensures
        lookup(rows, rows[i].key()) == Some(rows[i]),
{
    let k = rows[i].key();
    let j = choose|j: int| 0 <= j < rows.len() && (#[trigger] rows[j]).key() == k;
    assert(rows[i].key() == k);
    if j < i {
        assert(rows[j].key() != rows[i].key());
    } else if i < j {
        assert(rows[i].key() != rows[j].key());
    }
}

/// What is found is in the table, under the key that was asked for.
pub proof fn lemma_lookup_found<R: Row>(rows: Seq<R>, k: R::Key)
    requires
        lookup(rows, k) is Some,
    ensures
        lookup(rows, k)->0.key() == k,
        rows.contains(lookup(rows, k)->0),
{
}

/// Adding a row under a new key.
pub proof fn lemma_lookup_push<R: Row>(rows: Seq<R>, r: R)
    requires
        distinct_keys(rows),
        lookup(rows, r.key()) is None,
    ensures
        distinct_keys(rows.push(r)),
        forall|k: R::Key| #[trigger]
            lookup(rows.push(r), k) == (if k == r.key() {
                Some(r)
            } else {
                lookup(rows, k)
            }),
{
    let t = rows.push(r);
    assert forall|i: int, j: int| 0 <= i < j < t.len() implies (#[trigger] t[i]).key() != (
    #[trigger] t[j]).key() by {
        assert(t[i] == rows[i]);
        if j < rows.len() {
            assert(t[j] == rows[j]);
        }
    }
    assert forall|k: R::Key| #[trigger]
        lookup(t, k) == (if k == r.key() {
            Some(r)
        } else {
            lookup(rows, k)
        }) by {
        if k == r.key() {
            assert(t[rows.len() as int] == r);
            lemma_lookup_at(t, rows.len() as int);
        } else if lookup(rows, k) is Some {
            let i = choose|i: int| 0 <= i < rows.len() && (#[trigger] rows[i]).key() == k;
            assert(t[i] == rows[i]);
            lemma_lookup_at(t, i);
            lemma_lookup_at(rows, i);
        } else {
            assert forall|i: int| 0 <= i < t.len() implies (#[trigger] t[i]).key() != k by {
                if i < rows.len() {
                    assert(t[i] == rows[i]);
                }
            }
        }
    }
}

/// Changing rows in place, keys kept.
pub proof fn lemma_lookup_same_keys<R: Row>(rows: Seq<R>, t: Seq<R>)
    requires
        distinct_keys(rows),
        t.len() == rows.len(),
        forall|i: int| 0 <= i < rows.len() ==> (#[trigger] t[i]).key() == rows[i].key(),
    ensures
        distinct_keys(t),
        forall|i: int| 0 <= i < rows.len() ==> lookup(t, rows[i].key()) == Some(#[trigger] t[i]),
        forall|k: R::Key| (#[trigger] lookup(t, k)) is Some <==> lookup(rows, k) is Some,
{
    assert forall|i: int, j: int| 0 <= i < j < t.len() implies (#[trigger] t[i]).key() != (
    #[trigger] t[j]).key() by {
        assert(rows[i].key() != rows[j].key());
    }
    assert forall|i: int| 0 <= i < rows.len() implies lookup(t, rows[i].key()) == Some(
        #[trigger] t[i],
    ) by {
        lemma_lookup_at(t, i);
    }
    assert forall|k: R::Key| (#[trigger] lookup(t, k)) is Some <==> lookup(rows, k) is Some by {
        if lookup(t, k) is Some {
            let i = choose|i: int| 0 <= i < t.len() && (#[trigger] t[i]).key() == k;
            assert(rows[i].key() == k);
        }
        if lookup(rows, k) is Some {
            let i = choose|i: int| 0 <= i < rows.len() && (#[trigger] rows[i]).key() == k;
            assert(t[i].key() == k);
        }
    }
}

/// Keeping only the rows that satisfy `keep`.
pub proof fn lemma_lookup_filter<R: Row>(rows: Seq<R>, keep: spec_fn(R) -> bool)
    requires
        distinct_keys(rows),
    ensures
        distinct_keys(rows.filter(keep)),
        forall|k: R::Key| #[trigger]
            lookup(rows.filter(keep), k) == (match lookup(rows, k) {
                Some(r) if keep(r) => Some(r),
                _ => None,
            }),
    decreases rows.len(),
{
    reveal(Seq::filter);
    if rows.len() > 0 {
        let front = rows.drop_last();
        let last = rows.last();
        assert(distinct_keys(front)) by {
            assert forall|i: int, j: int| 0 <= i < j < front.len() implies (
            #[trigger] front[i]).key() != (#[trigger] front[j]).key() by {
                assert(front[i] == rows[i]);
                assert(front[j] == rows[j]);
            }
        }
        lemma_lookup_filter(front, keep);
        assert(lookup(front, last.key()) is None) by {
            assert forall|i: int| 0 <= i < front.len() implies (#[trigger] front[i]).key()
                != last.key() by {
                assert(front[i] == rows[i]);
                assert(rows[rows.len() - 1] == last);
            }
        }
        assert(front.push(last) =~= rows);
        lemma_lookup_push(front, last);
        if keep(last) {
            assert(lookup(front.filter(keep), last.key()) is None);
            lemma_lookup_push(front.filter(keep), last);
        }
    } else {
        assert(rows.filter(keep) =~= rows);
    }
}

/// What a filter keeps is in the table and satisfies it.
pub proof fn lemma_filter_kept<R>(rows: Seq<R>, keep: spec_fn(R) -> bool, i: int)
    requires
        0 <= i < rows.filter(keep).len(),
    ensures
        rows.contains(rows.filter(keep)[i]),
        keep(rows.filter(keep)[i]),
    decreases rows.len(),
{
    reveal(Seq::filter);
    if rows.len() > 0 {
        let front = rows.drop_last();
        if i < front.filter(keep).len() {
            lemma_filter_kept(front, keep, i);
            let j = front.index_of(front.filter(keep)[i]);
            assert(rows[j] == front[j]);
        } else {
            assert(rows[rows.len() - 1] == rows.filter(keep)[i]);
        }
    }
}

/// One more row under a filter.
pub proof fn lemma_filter_next<R>(rows: Seq<R>, keep: spec_fn(R) -> bool, i: int)
    requires
        0 <= i < rows.len(),
    ensures
        rows.take(i + 1).filter(keep) == (if keep(rows[i]) {
            rows.take(i).filter(keep).push(rows[i])
        } else {
            rows.take(i).filter(keep)
        }),
{
    reveal(Seq::filter);
    assert(rows.take(i + 1).drop_last() =~= rows.take(i));
}

/// Keys are distinct exactly if no two rows, wherever they stand, share one.
pub proof fn law_distinct_keys<R: Row>(rows: Seq<R>)
    ensures
        distinct_keys(rows) <==> forall|i: int, j: int|
            0 <= i < rows.len() && 0 <= j < rows.len() && i != j ==> (#[trigger] rows[i]).key() != (
            #[trigger] rows[j]).key(),
{
    if distinct_keys(rows) {
        assert forall|i: int, j: int|
            0 <= i < rows.len() && 0 <= j < rows.len() && i != j implies (
        #[trigger] rows[i]).key() != (#[trigger] rows[j]).key() by {
            if i < j {
                assert(rows[i].key() != rows[j].key());
            } else {
                assert(rows[j].key() != rows[i].key());
            }
        }
    }
}

/// What is found under a key is a row with that key, and there is one wherever
/// some row has it.
pub proof fn law_lookup<R: Row>(rows: Seq<R>, k: R::Key, r: R)
    requires
        distinct_keys(rows),
    ensures
        lookup(rows, k) == Some(r) <==> rows.contains(r) && r.key() == k,
{
    if lookup(rows, k) is Some {
        lemma_lookup_found(rows, k);
    }
    if rows.contains(r) && r.key() == k {
        lemma_lookup_at(rows, rows.index_of(r));
    }
}

} // verus!
