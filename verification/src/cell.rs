//! The cell store: the arena of cells a reactor owns, the
//! well-formedness predicates over it, and the evaluator.
//!
//! Cells live in a growable array; a cell's identifier is its index. A
//! compute cell may depend only on cells created strictly before it, so
//! dependency indices are strictly below the cell's own index and
//! increasing index order is a topological order of the whole graph.
//!
//! The store is kept *consistent*: every compute cell's cached value
//! equals its function applied to its dependencies' current values. The
//! propagation engine re-establishes consistency after an input changes.
use vstd::prelude::*;

use crate::callback::Callback;
use crate::func::CellFunc;
use crate::ids::CellID;

verus! {

/// One callback registration owned by a compute cell: the per-cell
/// registration number and the callback itself.
pub(crate) struct CbEntry<C> {
    pub(crate) id: usize,
    pub(crate) cb: C,
}

/// A compute cell: fixed dependencies and function, the last-computed
/// value, and the live callback registrations.
pub(crate) struct ComputeCell<T, F, C> {
    pub(crate) deps: Vec<CellID>,
    pub(crate) func: F,
    pub(crate) cache: T,
    pub(crate) callbacks: Vec<CbEntry<C>>,
    pub(crate) next_cb: usize,
}

/// A cell of the arena: an input cell holding its current value, or a
/// compute cell.
pub(crate) enum Cell<T, F, C> {
    Input(T),
    Compute(ComputeCell<T, F, C>),
}

/// The current stored value of cell `i`: an input cell's value, or a
/// compute cell's cached value.
pub(crate) open spec fn cur_of<T, F, C>(cells: Seq<Cell<T, F, C>>, i: int) -> T
    recommends
        0 <= i < cells.len(),
{
    match cells[i] {
        Cell::Input(v) => v,
        Cell::Compute(cc) => cc.cache,
    }
}

/// The current values of the cells a dependency list names, in declared
/// order.
pub(crate) open spec fn dep_vals<T, F, C>(cells: Seq<Cell<T, F, C>>, deps: Seq<CellID>) -> Seq<T> {
    Seq::new(deps.len(), |k: int| cur_of(cells, deps[k].idx()))
}

/// Every dependency names a cell strictly below `bound`.
pub(crate) open spec fn deps_below(deps: Seq<CellID>, bound: int) -> bool {
    forall|k: int| 0 <= k < deps.len() ==> 0 <= #[trigger] deps[k].idx() < bound
}

/// The callback registry of one compute cell is well formed: every
/// registration number is below the cell's counter, and no two
/// registrations share a number.
pub(crate) open spec fn regs_wf_at<C>(cbs: Seq<CbEntry<C>>, next: int) -> bool {
    &&& forall|k: int| 0 <= k < cbs.len() ==> #[trigger] cbs[k].id < next
    &&& forall|k1: int, k2: int|
        0 <= k1 < k2 < cbs.len() ==> #[trigger] cbs[k1].id != #[trigger] cbs[k2].id
}

/// The dependency graph is acyclic by construction: every compute cell
/// depends only on cells created strictly before it.
pub(crate) open spec fn graph_wf<T, F, C>(cells: Seq<Cell<T, F, C>>) -> bool {
    forall|i: int|
        0 <= i < cells.len() && cells[i] is Compute ==> deps_below(
            #[trigger] (cells[i]->Compute_0.deps)@,
            i,
        )
}

/// Every compute cell's callback registry is well formed.
pub(crate) open spec fn regs_wf<T, F, C>(cells: Seq<Cell<T, F, C>>) -> bool {
    forall|i: int|
        0 <= i < cells.len() && cells[i] is Compute ==> regs_wf_at(
            #[trigger] (cells[i]->Compute_0.callbacks)@,
            cells[i]->Compute_0.next_cb as int,
        )
}

/// Compute cell `i` holds a cached value equal to its function applied to
/// its dependencies' current values.
pub(crate) open spec fn consistent_at<T, F: CellFunc<T>, C>(
    cells: Seq<Cell<T, F, C>>,
    i: int,
) -> bool
    recommends
        0 <= i < cells.len(),
{
    cells[i] is Compute ==> cells[i]->Compute_0.cache == cells[i]->Compute_0.func.spec_call(
        dep_vals(cells, (cells[i]->Compute_0.deps)@),
    )
}

/// Every stored compute value is consistent with its function and its
/// dependencies' current values.
pub(crate) open spec fn consistent<T, F: CellFunc<T>, C>(cells: Seq<Cell<T, F, C>>) -> bool {
    forall|i: int| 0 <= i < cells.len() ==> #[trigger] consistent_at(cells, i)
}

/// Two arenas have the same cells apart from stored values and callback
/// state: same length, kinds, dependency lists, functions, registration
/// numbers and counters.
pub(crate) open spec fn same_shape<T, F, C>(
    a: Seq<Cell<T, F, C>>,
    b: Seq<Cell<T, F, C>>,
) -> bool {
    &&& a.len() == b.len()
    &&& forall|i: int|
        0 <= i < a.len() ==> ((#[trigger] a[i]) is Compute <==> (#[trigger] b[i]) is Compute)
    &&& forall|i: int|
        0 <= i < a.len() && (#[trigger] a[i]) is Compute ==> {
            &&& b[i]->Compute_0.deps == a[i]->Compute_0.deps
            &&& b[i]->Compute_0.func == a[i]->Compute_0.func
            &&& b[i]->Compute_0.next_cb == a[i]->Compute_0.next_cb
            &&& b[i]->Compute_0.callbacks@.len() == a[i]->Compute_0.callbacks@.len()
            &&& forall|k: int|
                0 <= k < a[i]->Compute_0.callbacks@.len() ==> (
                #[trigger] (b[i]->Compute_0.callbacks)@[k]).id
                    == (a[i]->Compute_0.callbacks)@[k].id
        }
}

/// If two arenas agree on the cells a dependency list names, they agree
/// on the dependency values.
pub(crate) proof fn lemma_dep_vals_agree<T, F, C>(
    a: Seq<Cell<T, F, C>>,
    b: Seq<Cell<T, F, C>>,
    deps: Seq<CellID>,
)
    requires
        forall|k: int|
            0 <= k < deps.len() ==> cur_of(a, #[trigger] deps[k].idx()) == cur_of(
                b,
                deps[k].idx(),
            ),
    ensures
        dep_vals(a, deps) == dep_vals(b, deps),
{
    assert(dep_vals(a, deps) =~= dep_vals(b, deps));
}

/// Reads the current stored value of cell `i`.
pub(crate) fn cur_value<T: Copy, F, C>(cells: &Vec<Cell<T, F, C>>, i: usize) -> (r: T)
    requires
        i < cells@.len(),
    ensures
        r == cur_of(cells@, i as int),
{
    match &cells[i] {
        Cell::Input(v) => *v,
        Cell::Compute(cc) => cc.cache,
    }
}

/// The evaluator: resolves each dependency's current value in declared
/// order and applies the function to the argument sequence. Reads the
/// store, never writes it.
pub(crate) fn evaluate<T: Copy, F: CellFunc<T>, C>(
    cells: &Vec<Cell<T, F, C>>,
    deps: &Vec<CellID>,
    func: &F,
) -> (r: T)
    requires
        deps_below(deps@, cells@.len() as int),
    ensures
        r == func.spec_call(dep_vals(cells@, deps@)),
{
    let mut args: Vec<T> = Vec::new();
    let mut k: usize = 0;
    while k < deps.len()
        invariant
            deps_below(deps@, cells@.len() as int),
            k <= deps@.len(),
            args@ == dep_vals(cells@, deps@).take(k as int),
        decreases deps@.len() - k,
    {
        let idx = deps[k].arena_index();
        args.push(cur_value(cells, idx));
        proof {
            assert(args@ =~= dep_vals(cells@, deps@).take(k + 1));
        }
        k = k + 1;
    }
    proof {
        assert(dep_vals(cells@, deps@).take(deps@.len() as int) =~= dep_vals(cells@, deps@));
    }
    func.call(&args)
}

/// Overwrites the cached value of a compute cell, leaving everything else
/// in the cell untouched.
pub(crate) fn write_cache<T, F, C>(cell: &mut Cell<T, F, C>, v: T)
    requires
        *old(cell) is Compute,
    ensures
        *final(cell) is Compute,
        final(cell)->Compute_0.cache == v,
        final(cell)->Compute_0.deps == old(cell)->Compute_0.deps,
        final(cell)->Compute_0.func == old(cell)->Compute_0.func,
        final(cell)->Compute_0.callbacks == old(cell)->Compute_0.callbacks,
        final(cell)->Compute_0.next_cb == old(cell)->Compute_0.next_cb,
{
    match cell {
        Cell::Compute(cc) => {
            cc.cache = v;
        },
        Cell::Input(_) => {
        },
    }
}

/// Invokes every live callback of a compute cell exactly once with the
/// given value.
pub(crate) fn fire_cell<T: Copy, F, C: Callback<T>>(cell: &mut Cell<T, F, C>, v: T)
    requires
        *old(cell) is Compute,
    ensures
        *final(cell) is Compute,
        final(cell)->Compute_0.cache == old(cell)->Compute_0.cache,
        final(cell)->Compute_0.deps == old(cell)->Compute_0.deps,
        final(cell)->Compute_0.func == old(cell)->Compute_0.func,
        final(cell)->Compute_0.next_cb == old(cell)->Compute_0.next_cb,
        final(cell)->Compute_0.callbacks@.len() == old(cell)->Compute_0.callbacks@.len(),
        forall|k: int|
            0 <= k < old(cell)->Compute_0.callbacks@.len() ==> {
                &&& (#[trigger] (final(cell)->Compute_0.callbacks)@[k]).id == (old(
                    cell,
                )->Compute_0.callbacks)@[k].id
                &&& (final(cell)->Compute_0.callbacks)@[k].cb.observed() == (old(
                    cell,
                )->Compute_0.callbacks)@[k].cb.observed().push(v)
            },
{
    match cell {
        Cell::Compute(cc) => {
            cc.fire(v);
        },
        Cell::Input(_) => {
        },
    }
}

/// Stores a new callback registration in a compute cell, numbering it
/// with the cell's counter, and advances the counter.
pub(crate) fn add_cb_entry<T, F, C>(cell: &mut Cell<T, F, C>, cb: C) -> (r: usize)
    requires
        *old(cell) is Compute,
        old(cell)->Compute_0.next_cb < usize::MAX,
    ensures
        *final(cell) is Compute,
        r == old(cell)->Compute_0.next_cb,
        final(cell)->Compute_0.next_cb == r + 1,
        final(cell)->Compute_0.cache == old(cell)->Compute_0.cache,
        final(cell)->Compute_0.deps == old(cell)->Compute_0.deps,
        final(cell)->Compute_0.func == old(cell)->Compute_0.func,
        final(cell)->Compute_0.callbacks@ == old(cell)->Compute_0.callbacks@.push(
            CbEntry { id: r, cb },
        ),
{
    match cell {
        Cell::Compute(cc) => {
            let r = cc.next_cb;
            cc.next_cb = cc.next_cb + 1;
            cc.callbacks.push(CbEntry { id: r, cb });
            r
        },
        Cell::Input(_) => vstd::pervasive::unreached(),
    }
}

/// Finds the position of the registration with the given number in a
/// callback list, if one exists.
pub(crate) fn find_cb_index<C>(cbs: &Vec<CbEntry<C>>, num: usize) -> (r: Option<usize>)
    ensures
        match r {
            Some(k) => k < cbs@.len() && cbs@[k as int].id == num,
            None => forall|j: int| 0 <= j < cbs@.len() ==> (#[trigger] cbs@[j]).id != num,
        },
{
    let n = cbs.len();
    let mut k: usize = 0;
    while k < n
        invariant
            n == cbs@.len(),
            k <= n,
            forall|j: int| 0 <= j < k ==> (#[trigger] cbs@[j]).id != num,
        decreases n - k,
    {
        if cbs[k].id == num {
            return Some(k);
        }
        k = k + 1;
    }
    None
}

/// Removes the `k`-th registration from a compute cell, leaving
/// everything else in the cell untouched.
pub(crate) fn remove_cb_at<T, F, C>(cell: &mut Cell<T, F, C>, k: usize)
    requires
        *old(cell) is Compute,
        k < old(cell)->Compute_0.callbacks@.len(),
    ensures
        *final(cell) is Compute,
        final(cell)->Compute_0.next_cb == old(cell)->Compute_0.next_cb,
        final(cell)->Compute_0.cache == old(cell)->Compute_0.cache,
        final(cell)->Compute_0.deps == old(cell)->Compute_0.deps,
        final(cell)->Compute_0.func == old(cell)->Compute_0.func,
        final(cell)->Compute_0.callbacks@ == old(cell)->Compute_0.callbacks@.remove(k as int),
{
    match cell {
        Cell::Compute(cc) => {
            let _ = cc.callbacks.remove(k);
        },
        Cell::Input(_) => {
        },
    }
}

/// Looks up the registration with the given number in a compute cell.
pub(crate) fn find_cb_entry<'a, T, F, C>(cell: &'a Cell<T, F, C>, num: usize) -> (r: Option<
    &'a C,
>)
    requires
        *cell is Compute,
    ensures
        match r {
            Some(c) => exists|k: int|
                {
                    &&& 0 <= k < cell->Compute_0.callbacks@.len()
                    &&& (#[trigger] (cell->Compute_0.callbacks)@[k]).id == num
                    &&& *c == cell->Compute_0.callbacks@[k].cb
                },
            None => forall|k: int|
                0 <= k < cell->Compute_0.callbacks@.len() ==> (#[trigger] (
                cell->Compute_0.callbacks)@[k]).id != num,
        },
{
    match cell {
        Cell::Compute(cc) => {
            let pos = find_cb_index(&cc.callbacks, num);
            match pos {
                Some(k) => {
                    let entry = &cc.callbacks[k];
                    Some(&entry.cb)
                },
                None => None,
            }
        },
        Cell::Input(_) => vstd::pervasive::unreached(),
    }
}

/// Consistency carries over to a store whose cells keep their shapes,
/// caches and current values: re-checking each compute cell's equation
/// reads only values that are unchanged.
pub(crate) proof fn lemma_consistent_preserved<T, F: CellFunc<T>, C>(
    a: Seq<Cell<T, F, C>>,
    b: Seq<Cell<T, F, C>>,
)
    requires
        a.len() <= b.len(),
        graph_wf(a),
        consistent(a),
        forall|i: int|
            0 <= i < a.len() ==> (((#[trigger] a[i]) is Compute <==> b[i] is Compute) && (a[i]
                is Compute ==> b[i]->Compute_0.deps == a[i]->Compute_0.deps
                && b[i]->Compute_0.func == a[i]->Compute_0.func && b[i]->Compute_0.cache
                == a[i]->Compute_0.cache)),
        forall|i: int| 0 <= i < a.len() ==> cur_of(b, i) == #[trigger] cur_of(a, i),
    ensures
        forall|i: int| 0 <= i < a.len() ==> #[trigger] consistent_at(b, i),
{
    assert forall|i: int| 0 <= i < a.len() implies #[trigger] consistent_at(b, i) by {
        if b[i] is Compute {
            assert(a[i] is Compute);
            let ds = (a[i]->Compute_0.deps)@;
            assert(deps_below(ds, i));
            assert(consistent_at(a, i));
            assert forall|k: int|
                0 <= k < ds.len() implies cur_of(a, #[trigger] ds[k].idx()) == cur_of(
                b,
                ds[k].idx(),
            ) by {
                assert(0 <= ds[k].idx() < i);
            }
            lemma_dep_vals_agree(a, b, ds);
        }
    }
}

impl<T: Copy, F, C: Callback<T>> ComputeCell<T, F, C> {
    /// Invokes each registered callback once with the given value.
    fn fire(&mut self, v: T)
        ensures
            final(self).cache == old(self).cache,
            final(self).deps == old(self).deps,
            final(self).func == old(self).func,
            final(self).next_cb == old(self).next_cb,
            final(self).callbacks@.len() == old(self).callbacks@.len(),
            forall|k: int|
                0 <= k < old(self).callbacks@.len() ==> {
                    &&& (#[trigger] final(self).callbacks@[k]).id == old(self).callbacks@[k].id
                    &&& final(self).callbacks@[k].cb.observed() == old(
                        self,
                    ).callbacks@[k].cb.observed().push(v)
                },
    {
        let n = self.callbacks.len();
        let mut k: usize = 0;
        while k < n
            invariant
                n == self.callbacks@.len(),
                k <= n,
                self.cache == old(self).cache,
                self.deps == old(self).deps,
                self.func == old(self).func,
                self.next_cb == old(self).next_cb,
                self.callbacks@.len() == old(self).callbacks@.len(),
                forall|j: int|
                    0 <= j < k ==> {
                        &&& (#[trigger] self.callbacks@[j]).id == old(self).callbacks@[j].id
                        &&& self.callbacks@[j].cb.observed() == old(
                            self,
                        ).callbacks@[j].cb.observed().push(v)
                    },
                forall|j: int|
                    k <= j < n ==> #[trigger] self.callbacks@[j] == old(self).callbacks@[j],
            decreases n - k,
        {
            let entry = &mut self.callbacks[k];
            entry.cb.call(v);
            k = k + 1;
        }
    }
}

} // verus!
