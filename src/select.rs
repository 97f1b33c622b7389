//! Aggregation of per-filter decisions and selection of the kept records.

use vstd::prelude::*;

verus! {

/// Some decision in `decisions` keeps the record.
pub open spec fn any_true(decisions: Seq<bool>) -> bool {
    exists|i: int| 0 <= i < decisions.len() && #[trigger] decisions[i]
}

/// The records of `values` whose decision in `keep` is true, in their original order.
pub open spec fn kept<T>(values: Seq<T>, keep: Seq<bool>) -> Seq<T>
    decreases values.len(),
{
    if values.len() == 0 {
        Seq::empty()
    } else {
        let n = values.len() - 1;
        let front = kept(values.take(n), keep.take(n));
        if keep[n] {
            front.push(values[n])
        } else {
            front
        }
    }
}

/// The entries of a table that hold a value, with that value, in order.
pub open spec fn callables<F>(entries: Seq<(String, Option<F>)>) -> Seq<(String, F)>
    decreases entries.len(),
{
    if entries.len() == 0 {
        Seq::empty()
    } else {
        let n = entries.len() - 1;
        let front = callables(entries.take(n));
        match entries[n].1 {
            Some(f) => front.push((entries[n].0, f)),
            None => front,
        }
    }
}

/// How many entries of a table hold a value.
pub open spec fn count_functions<F>(entries: Seq<(String, Option<F>)>) -> nat
    decreases entries.len(),
{
    if entries.len() == 0 {
        0
    } else {
        let n = entries.len() - 1;
        count_functions(entries.take(n)) + if entries[n].1 is Some {
            1nat
        } else {
            0nat
        }
    }
}

/// How many entries hold a value over all the given tables.
pub open spec fn total_functions<F>(tables: Seq<Seq<(String, Option<F>)>>) -> nat
    decreases tables.len(),
{
    if tables.len() == 0 {
        0
    } else {
        total_functions(tables.drop_last()) + count_functions(tables.last())
    }
}

/// A table gives one filter for each entry that holds a value.
pub proof fn lemma_callables_len<F>(entries: Seq<(String, Option<F>)>)
    ensures
        callables(entries).len() == count_functions(entries),
    decreases entries.len(),
{
    if entries.len() > 0 {
        lemma_callables_len(entries.take(entries.len() - 1));
    }
}

/// The tables together give one filter for each entry that holds a value.
pub proof fn lemma_tables_len<F>(tables: Seq<Seq<(String, Option<F>)>>)
    ensures
        tables.map_values(|t: Seq<(String, Option<F>)>| callables(t)).flatten().len()
            == total_functions(tables),
    decreases tables.len(),
{
    if tables.len() > 0 {
        let front = tables.drop_last();
        let c = |t: Seq<(String, Option<F>)>| callables(t);
        lemma_tables_len(front);
        lemma_callables_len(tables.last());
        assert(tables.map_values(c) =~= front.map_values(c).push(callables(tables.last())));
        front.map_values(c).lemma_flatten_push(callables(tables.last()));
    }
}

/// When no decision keeps a record, no record is kept.
pub proof fn lemma_kept_none<T>(values: Seq<T>, keep: Seq<bool>)
    requires
        keep.len() == values.len(),
        forall|j: int| 0 <= j < keep.len() ==> !#[trigger] keep[j],
    ensures
        kept(values, keep) == Seq::<T>::empty(),
    decreases values.len(),
{
    if values.len() > 0 {
        let n = values.len() - 1;
        lemma_kept_none(values.take(n), keep.take(n));
    }
}

/// `idx` lists, in strictly increasing order, exactly the positions of
/// `values` whose decision in `keep` is true, and the kept records are the
/// records at those positions.
pub open spec fn kept_at<T>(values: Seq<T>, keep: Seq<bool>, idx: Seq<int>) -> bool {
    &&& idx.len() == kept(values, keep).len()
    &&& forall|j: int|
        0 <= j < idx.len() ==> 0 <= #[trigger] idx[j] < values.len() && keep[idx[j]]
            && kept(values, keep)[j] == values[idx[j]]
    &&& forall|j: int, k: int| 0 <= j < k < idx.len() ==> idx[j] < idx[k]
    &&& forall|i: int| 0 <= i < values.len() && #[trigger] keep[i] ==> idx.contains(i)
}

/// The kept records form a subsequence of `values`: each stands at a
/// position whose decision is true, the positions strictly increase (nothing
/// is reordered or repeated), and every position whose decision is true is
/// among them.
pub proof fn lemma_kept_subsequence<T>(values: Seq<T>, keep: Seq<bool>)
    requires
        keep.len() == values.len(),
    ensures
        exists|idx: Seq<int>| kept_at(values, keep, idx),
    decreases values.len(),
{
    if values.len() == 0 {
        assert(kept_at(values, keep, Seq::<int>::empty()));
    } else {
        let n = values.len() - 1;
        let vs = values.take(n);
        let ks = keep.take(n);
        lemma_kept_subsequence(vs, ks);
        let idx0 = choose|idx: Seq<int>| kept_at(vs, ks, idx);
        let idx = if keep[n] {
            idx0.push(n)
        } else {
            idx0
        };
        assert forall|i: int| 0 <= i < values.len() && #[trigger] keep[i] implies idx.contains(i) by {
            if i < n {
                assert(ks[i]);
                let j = choose|j: int| 0 <= j < idx0.len() && idx0[j] == i;
                assert(idx[j] == i);
            } else {
                assert(idx[idx.len() - 1] == n);
            }
        }
        assert(forall|j: int|
            0 <= j < idx.len() ==> 0 <= #[trigger] idx[j] < values.len() && keep[idx[j]]
                && kept(values, keep)[j] == values[idx[j]]);
        assert(kept_at(values, keep, idx));
    }
}

/// Filtering what a filter kept, with the same decision for each record,
/// keeps all of it.
pub proof fn lemma_kept_idempotent<T>(values: Seq<T>, decide: spec_fn(T) -> bool)
    ensures
        ({
            let once = kept(values, values.map_values(decide));
            kept(once, once.map_values(decide)) == once
        }),
    decreases values.len(),
{
    if values.len() > 0 {
        let n = values.len() - 1;
        let vs = values.take(n);
        lemma_kept_idempotent(vs, decide);
        assert(values.map_values(decide).take(n) =~= vs.map_values(decide));
        let front = kept(vs, vs.map_values(decide));
        if decide(values[n]) {
            let once = front.push(values[n]);
            assert(once.take(front.len() as int) =~= front);
            assert(once.map_values(decide).take(front.len() as int) =~= front.map_values(decide));
        }
    }
}

/// Combines the decisions of every filter on one record: the record is kept
/// when at least one filter keeps it, and dropped when there is no filter.
pub fn any_kept(decisions: &Vec<bool>) -> (r: bool)
    ensures
        r == any_true(decisions@),
{
    let mut found = false;
    let mut i: usize = 0;
    while i < decisions.len()
        invariant
            0 <= i <= decisions.len(),
            found == exists|j: int| 0 <= j < i && #[trigger] decisions@[j],
        decreases decisions.len() - i,
    {
        if decisions[i] {
            found = true;
        }
        i = i + 1;
    }
    found
}

/// Keeps the records whose decision is true, in their original order; the
/// records are moved, not copied.
pub fn retain_kept<T>(values: Vec<T>, keep: &Vec<bool>) -> (r: Vec<T>)
    requires
        keep@.len() == values@.len(),
    ensures
        r@ == kept(values@, keep@),
{
    let ghost all = values@;
    let mut out: Vec<T> = Vec::new();
    let mut i: usize = 0;
    for x in it: values.into_iter()
        invariant
            it.seq() == all,
            i == it.index(),
            i <= all.len(),
            keep@.len() == all.len(),
            out@ == kept(all.take(i as int), keep@.take(i as int)),
    {
        assert(i < keep.len());
        proof {
            assert(all.take(i + 1).take(i as int) =~= all.take(i as int));
            assert(keep@.take(i + 1).take(i as int) =~= keep@.take(i as int));
        }
        if keep[i] {
            out.push(x);
        }
        i = i + 1;
    }
    proof {
        assert(all.take(all.len() as int) =~= all);
        assert(keep@.take(all.len() as int) =~= keep@);
    }
    out
}

} // verus!
