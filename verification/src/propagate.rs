//! The propagation engine: after an input cell changes, re-establish
//! consistency of every compute cell and fire the callbacks of the cells
//! whose value changed.
//!
//! Propagation is two-phase. Phase one determines the affected set —
//! every compute cell transitively dependent on the written input — and
//! walks it in index order, a topological order since a cell depends
//! only on cells with smaller indices: it captures each affected cell's
//! previous cached value, recomputes it from already-updated dependency
//! values, and records the cells whose value changed. Phase two fires
//! every live callback of each recorded cell exactly once, with the
//! cell's final value. A cell on several paths from the changed input (a
//! diamond) is therefore re-evaluated once and its callbacks fire at
//! most once per write, and only the net before/after comparison decides
//! whether they fire.
use vstd::prelude::*;

use crate::callback::Callback;
use crate::cell::Cell;
use crate::cell::consistent;
use crate::cell::consistent_at;
use crate::cell::cur_of;
use crate::cell::cur_value;
use crate::cell::dep_vals;
use crate::cell::deps_below;
use crate::cell::evaluate;
use crate::cell::fire_cell;
use crate::cell::graph_wf;
use crate::cell::lemma_dep_vals_agree;
use crate::cell::same_shape;
use crate::cell::write_cache;
use crate::func::CellFunc;
use crate::ids::CellID;

verus! {

/// Appending an element to a sequence adds exactly it to the members.
proof fn lemma_push_contains<A>(s: Seq<A>, x: A, y: A)
    ensures
        s.push(x).contains(y) <==> (s.contains(y) || x == y),
{
    if s.contains(y) {
        let k = choose|k: int| 0 <= k < s.len() && s[k] == y;
        assert(s.push(x)[k] == y);
    }
    if x == y {
        assert(s.push(x)[s.len() as int] == y);
    }
    if s.push(x).contains(y) {
        let k = choose|k: int| 0 <= k < s.push(x).len() && s.push(x)[k] == y;
        if k < s.len() {
            assert(s[k] == y);
        }
    }
}

/// Overwrites the stored value of an input cell.
pub(crate) fn set_input_at<T, F, C>(cells: &mut Vec<Cell<T, F, C>>, i: usize, v: T)
    requires
        i < old(cells)@.len(),
        old(cells)@[i as int] is Input,
    ensures
        final(cells)@ == old(cells)@.update(i as int, Cell::<T, F, C>::Input(v)),
{
    let cref = &mut cells[i];
    *cref = Cell::Input(v);
}

/// Reports whether some dependency of a cell lies in the affected set.
pub(crate) fn any_dep_affected(affected: &Vec<bool>, deps: &Vec<CellID>) -> (r: bool)
    requires
        deps_below(deps@, affected@.len() as int),
    ensures
        r == exists|k: int| 0 <= k < deps@.len() && affected@[(#[trigger] deps@[k]).idx()],
{
    let n = deps.len();
    let mut k: usize = 0;
    while k < n
        invariant
            n == deps@.len(),
            k <= n,
            deps_below(deps@, affected@.len() as int),
            forall|j: int| 0 <= j < k ==> !affected@[(#[trigger] deps@[j]).idx()],
        decreases n - k,
    {
        let idx = deps[k].arena_index();
        if affected[idx] {
            proof {
                assert(affected@[deps@[k as int].idx()]);
            }
            return true;
        }
        k = k + 1;
    }
    false
}

/// Phase one: determines the affected set — the compute cells that
/// depend, directly or through other affected cells, on the written
/// input — and re-evaluates exactly those, in dependency (index) order,
/// overwriting each cached value. Returns the strictly increasing list
/// of the cells whose stored value changed, judged by `==` on the
/// previous and the new value.
///
/// `pre` is the store as it stood before the input at `source` was
/// overwritten; its consistency is what lets the unaffected cells keep
/// their cached values untouched.
pub(crate) fn recompute<T: Copy + PartialEq, F: CellFunc<T>, C>(
    cells: &mut Vec<Cell<T, F, C>>,
    source: usize,
    Ghost(pre): Ghost<Seq<Cell<T, F, C>>>,
) -> (fired: Vec<usize>)
    requires
        graph_wf(old(cells)@),
        source < old(cells)@.len(),
        old(cells)@[source as int] is Input,
        pre.len() == old(cells)@.len(),
        pre[source as int] is Input,
        forall|i: int| 0 <= i < pre.len() && i != source ==> old(cells)@[i] == pre[i],
        consistent(pre),
    ensures
        same_shape(old(cells)@, final(cells)@),
        graph_wf(final(cells)@),
        consistent(final(cells)@),
        forall|i: int|
            0 <= i < old(cells)@.len() && old(cells)@[i] is Input ==> final(cells)@[i] == old(cells)@[i],
        forall|i: int|
            0 <= i < old(cells)@.len() && (#[trigger] old(cells)@[i]) is Compute ==> final(cells)@[i]->Compute_0.callbacks == old(cells)@[i]->Compute_0.callbacks,
        forall|k: int|
            0 <= k < fired@.len() ==> #[trigger] fired@[k] < old(cells)@.len() && old(cells)@[fired@[k] as int] is Compute,
        forall|k1: int, k2: int| 0 <= k1 < k2 < fired@.len() ==> fired@[k1] < fired@[k2],
        vstd::laws_eq::obeys_concrete_eq::<T>() ==> forall|i: usize|
            i < old(cells)@.len() && (#[trigger] old(cells)@[i as int]) is Compute ==> (
            fired@.contains(i) <==> cur_of(old(cells)@, i as int) != cur_of(
                final(cells)@,
                i as int,
            )),
{
    let ghost orig = cells@;
    let n = cells.len();
    let mut affected: Vec<bool> = Vec::new();
    let mut t: usize = 0;
    while t < n
        invariant
            t <= n,
            affected@.len() == t,
            forall|i: int| 0 <= i < t ==> !affected@[i],
        decreases n - t,
    {
        affected.push(false);
        t = t + 1;
    }
    let amark = &mut affected[source];
    *amark = true;
    let mut fired: Vec<usize> = Vec::new();
    let mut j: usize = 0;
    while j < n
        invariant
            n == cells@.len(),
            cells@.len() == orig.len(),
            orig.len() == pre.len(),
            j <= n,
            source < n,
            orig[source as int] is Input,
            pre[source as int] is Input,
            forall|i: int| 0 <= i < pre.len() && i != source ==> orig[i] == pre[i],
            consistent(pre),
            graph_wf(orig),
            affected@.len() == n,
            affected@[source as int],
            forall|i: int|
                0 <= i < n && #[trigger] affected@[i] && i != source ==> orig[i] is Compute && i
                    < j,
            forall|i: int| 0 <= i < n && (i >= j || !affected@[i]) ==> cells@[i] == orig[i],
            forall|i: int|
                0 <= i < j && orig[i] is Compute && !affected@[i] ==> (forall|k: int|
                    0 <= k < (orig[i]->Compute_0.deps)@.len() ==> !affected@[(#[trigger] (
                    orig[i]->Compute_0.deps)@[k]).idx()]),
            same_shape(orig, cells@),
            forall|i: int| 0 <= i < n && orig[i] is Input ==> cells@[i] == orig[i],
            forall|i: int|
                0 <= i < n && (#[trigger] orig[i]) is Compute ==> cells@[i]->Compute_0.callbacks
                    == orig[i]->Compute_0.callbacks,
            forall|i: int|
                j <= i < n && (#[trigger] orig[i]) is Compute ==> cells@[i]->Compute_0.cache
                    == orig[i]->Compute_0.cache,
            forall|i: int| 0 <= i < j ==> #[trigger] consistent_at(cells@, i),
            forall|k: int|
                0 <= k < fired@.len() ==> #[trigger] fired@[k] < j && orig[fired@[k] as int]
                    is Compute,
            forall|k1: int, k2: int| 0 <= k1 < k2 < fired@.len() ==> fired@[k1] < fired@[k2],
            vstd::laws_eq::obeys_concrete_eq::<T>() ==> forall|i: usize|
                i < j && (#[trigger] orig[i as int]) is Compute ==> (fired@.contains(i)
                    <==> cur_of(orig, i as int) != cur_of(cells@, i as int)),
        decreases n - j,
    {
        proof {
            if cells@[j as int] is Compute {
                assert(orig[j as int] is Compute);
                assert(cells@[j as int]->Compute_0.deps == orig[j as int]->Compute_0.deps);
                assert(deps_below((orig[j as int]->Compute_0.deps)@, j as int));
            }
        }
        let work: Option<(T, bool)> = match &cells[j] {
            Cell::Compute(cc) => {
                if any_dep_affected(&affected, &cc.deps) {
                    let newv = evaluate(cells, &cc.deps, &cc.func);
                    let unchanged = cc.cache == newv;
                    Some((newv, !unchanged))
                } else {
                    None
                }
            },
            Cell::Input(_) => None,
        };
        match work {
            Some((newv, changed)) => {
                let ghost prev = cells@;
                let ghost prevaff = affected@;
                let amark = &mut affected[j];
                *amark = true;
                let cref = &mut cells[j];
                write_cache(cref, newv);
                proof {
                    assert(affected@ == prevaff.update(j as int, true));
                    assert forall|i: int| 0 <= i <= j implies #[trigger] consistent_at(
                        cells@,
                        i,
                    ) by {
                        if cells@[i] is Compute {
                            assert(cells@[i]->Compute_0.deps == prev[i]->Compute_0.deps);
                            let ds = (cells@[i]->Compute_0.deps)@;
                            assert(orig[i] is Compute);
                            assert(prev[i]->Compute_0.deps == orig[i]->Compute_0.deps);
                            assert(deps_below(ds, i));
                            assert forall|k: int|
                                0 <= k < ds.len() implies cur_of(prev, #[trigger] ds[k].idx())
                                == cur_of(cells@, ds[k].idx()) by {
                                assert(ds[k].idx() < i <= j);
                            }
                            lemma_dep_vals_agree(prev, cells@, ds);
                            if i < j {
                                assert(consistent_at(prev, i));
                                assert(cells@[i] == prev[i]);
                            } else {
                                assert(cells@[i]->Compute_0.cache == newv);
                                assert(cells@[i]->Compute_0.func == prev[i]->Compute_0.func);
                                assert(newv == prev[i]->Compute_0.func.spec_call(
                                    dep_vals(prev, ds),
                                ));
                            }
                        }
                    }
                    if vstd::laws_eq::obeys_concrete_eq::<T>() {
                        reveal(vstd::laws_eq::obeys_concrete_eq);
                        assert(changed == (cur_of(orig, j as int) != cur_of(cells@, j as int)));
                    }
                }
                if changed {
                    proof {
                        lemma_push_contains(fired@, j, j);
                    }
                    let ghost oldfired = fired@;
                    fired.push(j);
                    proof {
                        assert forall|i: usize| i < j + 1 implies (fired@.contains(i) <==> (
                        oldfired.contains(i) || i == j)) by {
                            lemma_push_contains(oldfired, j, i);
                        }
                    }
                } else {
                    proof {
                        assert(!fired@.contains(j as usize));
                    }
                }
            },
            None => {
                proof {
                    assert(cells@[j as int] == orig[j as int]);
                    if orig[j as int] is Compute {
                        let ds = (orig[j as int]->Compute_0.deps)@;
                        assert(orig[j as int] == pre[j as int]);
                        assert(consistent_at(pre, j as int));
                        assert forall|k: int|
                            0 <= k < ds.len() implies cur_of(pre, #[trigger] ds[k].idx())
                            == cur_of(cells@, ds[k].idx()) by {
                            assert(!affected@[ds[k].idx()]);
                            assert(ds[k].idx() != source);
                            assert(cells@[ds[k].idx()] == orig[ds[k].idx()]);
                            assert(orig[ds[k].idx()] == pre[ds[k].idx()]);
                        }
                        lemma_dep_vals_agree(pre, cells@, ds);
                        assert(consistent_at(cells@, j as int));
                        assert(!fired@.contains(j as usize));
                    }
                }
            },
        }
        j = j + 1;
    }
    proof {
        assert(consistent(cells@));
        assert forall|i: int|
            0 <= i < cells@.len() && cells@[i] is Compute implies deps_below(
            #[trigger] (cells@[i]->Compute_0.deps)@,
            i,
        ) by {
            assert(orig[i] is Compute);
        }
    }
    fired
}

/// Phase two: fires every live callback of each recorded cell exactly
/// once, with the cell's final (already recomputed) value. Cells not in
/// the list are left entirely untouched.
pub(crate) fn dispatch<T: Copy, F, C: Callback<T>>(
    cells: &mut Vec<Cell<T, F, C>>,
    fired: &Vec<usize>,
)
    requires
        forall|k: int|
            0 <= k < fired@.len() ==> #[trigger] fired@[k] < old(cells)@.len() && old(cells)@[fired@[k] as int] is Compute,
        forall|k1: int, k2: int| 0 <= k1 < k2 < fired@.len() ==> fired@[k1] < fired@[k2],
    ensures
        final(cells)@.len() == old(cells)@.len(),
        forall|i: usize|
            i < old(cells)@.len() && !fired@.contains(i) ==> final(cells)@[i as int] == old(cells)@[i as int],
        forall|i: usize|
            i < old(cells)@.len() && #[trigger] fired@.contains(i) ==> {
                let a = old(cells)@[i as int];
                let b = final(cells)@[i as int];
                &&& b is Compute
                &&& b->Compute_0.cache == a->Compute_0.cache
                &&& b->Compute_0.deps == a->Compute_0.deps
                &&& b->Compute_0.func == a->Compute_0.func
                &&& b->Compute_0.next_cb == a->Compute_0.next_cb
                &&& b->Compute_0.callbacks@.len() == a->Compute_0.callbacks@.len()
                &&& forall|k: int|
                    0 <= k < a->Compute_0.callbacks@.len() ==> {
                        &&& (#[trigger] (b->Compute_0.callbacks)@[k]).id == (
                        a->Compute_0.callbacks)@[k].id
                        &&& (b->Compute_0.callbacks)@[k].cb.observed() == (
                        a->Compute_0.callbacks)@[k].cb.observed().push(
                            cur_of(old(cells)@, i as int),
                        )
                    }
            },
{
    let ghost orig = cells@;
    let m = fired.len();
    let mut t: usize = 0;
    while t < m
        invariant
            m == fired@.len(),
            t <= m,
            cells@.len() == orig.len(),
            forall|k: int|
                0 <= k < fired@.len() ==> #[trigger] fired@[k] < orig.len() && orig[fired@[k] as int]
                    is Compute,
            forall|k1: int, k2: int| 0 <= k1 < k2 < fired@.len() ==> fired@[k1] < fired@[k2],
            forall|i: usize|
                i < orig.len() && !fired@.take(t as int).contains(i) ==> cells@[i as int]
                    == orig[i as int],
            forall|i: usize|
                i < orig.len() && #[trigger] fired@.take(t as int).contains(i) ==> {
                    let a = orig[i as int];
                    let b = cells@[i as int];
                    &&& b is Compute
                    &&& b->Compute_0.cache == a->Compute_0.cache
                    &&& b->Compute_0.deps == a->Compute_0.deps
                    &&& b->Compute_0.func == a->Compute_0.func
                    &&& b->Compute_0.next_cb == a->Compute_0.next_cb
                    &&& b->Compute_0.callbacks@.len() == a->Compute_0.callbacks@.len()
                    &&& forall|k: int|
                        0 <= k < a->Compute_0.callbacks@.len() ==> {
                            &&& (#[trigger] (b->Compute_0.callbacks)@[k]).id == (
                            a->Compute_0.callbacks)@[k].id
                            &&& (b->Compute_0.callbacks)@[k].cb.observed() == (
                            a->Compute_0.callbacks)@[k].cb.observed().push(cur_of(orig, i as int))
                        }
                },
        decreases m - t,
    {
        let j = fired[t];
        proof {
            assert(!fired@.take(t as int).contains(j)) by {
                if fired@.take(t as int).contains(j) {
                    let k = choose|k: int|
                        0 <= k < fired@.take(t as int).len() && fired@.take(t as int)[k] == j;
                    assert(fired@[k] == j);
                    assert(fired@[k] < fired@[t as int]);
                    assert(false);
                }
            }
            assert(cells@[j as int] == orig[j as int]);
        }
        let v = cur_value(cells, j);
        let ghost prev = cells@;
        let cref = &mut cells[j];
        fire_cell(cref, v);
        proof {
            assert(fired@.take(t + 1) =~= fired@.take(t as int).push(j));
            assert(v == cur_of(orig, j as int));
            assert forall|i: usize|
                i < orig.len() && #[trigger] fired@.take(t + 1).contains(i) implies {
                let a = orig[i as int];
                let b = cells@[i as int];
                &&& b is Compute
                &&& b->Compute_0.cache == a->Compute_0.cache
                &&& b->Compute_0.deps == a->Compute_0.deps
                &&& b->Compute_0.func == a->Compute_0.func
                &&& b->Compute_0.next_cb == a->Compute_0.next_cb
                &&& b->Compute_0.callbacks@.len() == a->Compute_0.callbacks@.len()
                &&& forall|k: int|
                    0 <= k < a->Compute_0.callbacks@.len() ==> {
                        &&& (#[trigger] (b->Compute_0.callbacks)@[k]).id == (
                        a->Compute_0.callbacks)@[k].id
                        &&& (b->Compute_0.callbacks)@[k].cb.observed() == (
                        a->Compute_0.callbacks)@[k].cb.observed().push(cur_of(orig, i as int))
                    }
            } by {
                lemma_push_contains(fired@.take(t as int), j, i);
                if i == j {
                    assert(prev[i as int] == orig[i as int]);
                } else {
                    assert(fired@.take(t as int).contains(i));
                    assert(cells@[i as int] == prev[i as int]);
                }
            }
            assert forall|i: usize|
                i < orig.len() && !fired@.take(t + 1).contains(i) implies cells@[i as int]
                == orig[i as int] by {
                lemma_push_contains(fired@.take(t as int), j, i);
                assert(!fired@.take(t as int).contains(i));
                assert(i != j);
            }
        }
        t = t + 1;
    }
    proof {
        assert(fired@.take(m as int) =~= fired@);
    }
}

} // verus!
