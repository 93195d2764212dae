//! A reactive-computation runtime: a graph of value-holding cells where
//! input cells are set directly and compute cells are pure functions of
//! other cells, re-evaluated automatically as inputs change.
//!
//! A [`Reactor`] owns all cells of one graph in an arena; identifiers are
//! arena indices, so a cell can depend only on cells created before it
//! and the graph is acyclic by construction. Every compute cell caches
//! its value, and the reactor keeps the cache *consistent*: equal to the
//! cell's function applied to its dependencies' current values. Writing
//! an input re-establishes consistency in two phases — recompute every
//! compute cell in dependency order, then fire the callbacks of the
//! cells whose value changed, each exactly once, with the final value.
pub mod callback;
mod cell;
pub mod func;
pub mod ids;
mod propagate;

pub use crate::callback::Callback;
pub use crate::callback::ValueLog;
pub use crate::func::ArithFunc;
pub use crate::func::CellFunc;
pub use crate::ids::CallbackID;
pub use crate::ids::CellID;
pub use crate::ids::ComputeCellID;
pub use crate::ids::InputCellID;
pub use crate::ids::RemoveCallbackError;

use vstd::prelude::*;

use crate::cell::Cell;
use crate::cell::ComputeCell;
use crate::cell::add_cb_entry;
use crate::cell::consistent;
use crate::cell::consistent_at;
use crate::cell::cur_of;
use crate::cell::dep_vals;
use crate::cell::deps_below;
use crate::cell::evaluate;
use crate::cell::find_cb_entry;
use crate::cell::find_cb_index;
use crate::cell::graph_wf;
use crate::cell::lemma_consistent_preserved;
use crate::cell::lemma_dep_vals_agree;
use crate::cell::regs_wf;
use crate::cell::regs_wf_at;
use crate::cell::remove_cb_at;
use crate::cell::same_shape;
use crate::propagate::dispatch;
use crate::propagate::recompute;
use crate::propagate::set_input_at;

verus! {

/// A reactor: the arena of cells, input and compute, of one reactive
/// graph, together with each compute cell's callback registrations.
///
/// `T` is the value type shared by all cells of the instance, `F` the
/// compute-function type, and `C` the callback type.
pub struct Reactor<T, F, C> {
    pub(crate) cells: Vec<Cell<T, F, C>>,
}

impl<T: Copy + PartialEq, F: CellFunc<T>, C: Callback<T>> Reactor<T, F, C> {
    /// How many cells have been created, of both kinds.
    pub open(crate) spec fn num_cells(self) -> int {
        self.cells@.len() as int
    }

    /// Index `i` names an input cell.
    pub open(crate) spec fn is_input_at(self, i: int) -> bool {
        0 <= i < self.num_cells() && self.cells@[i] is Input
    }

    /// Index `i` names a compute cell.
    pub open(crate) spec fn is_compute_at(self, i: int) -> bool {
        0 <= i < self.num_cells() && self.cells@[i] is Compute
    }

    /// The current observable value of cell `i`.
    pub open(crate) spec fn value_at(self, i: int) -> T {
        cur_of(self.cells@, i)
    }

    /// The current observable values of the cells a dependency list
    /// names, in declared order.
    pub open(crate) spec fn values_of(self, deps: Seq<CellID>) -> Seq<T> {
        dep_vals(self.cells@, deps)
    }

    /// The dependency list of compute cell `i`.
    pub open(crate) spec fn deps_at(self, i: int) -> Seq<CellID> {
        (self.cells@[i]->Compute_0.deps)@
    }

    /// The function of compute cell `i`.
    pub open(crate) spec fn func_at(self, i: int) -> F {
        self.cells@[i]->Compute_0.func
    }

    /// The registration counter of compute cell `i`: the number the next
    /// callback added there will get.
    pub open(crate) spec fn next_cb_at(self, i: int) -> int {
        self.cells@[i]->Compute_0.next_cb as int
    }

    /// How many live callback registrations compute cell `i` holds.
    pub open(crate) spec fn cb_count_at(self, i: int) -> int {
        self.cells@[i]->Compute_0.callbacks@.len() as int
    }

    /// The registration number of the `k`-th live callback of compute
    /// cell `i`.
    pub open(crate) spec fn cb_id_at(self, i: int, k: int) -> int {
        self.cells@[i]->Compute_0.callbacks@[k].id as int
    }

    /// The `k`-th live callback of compute cell `i`.
    pub open(crate) spec fn cb_at(self, i: int, k: int) -> C {
        self.cells@[i]->Compute_0.callbacks@[k].cb
    }

    /// Compute cell `i` holds a live registration with number `num`.
    pub open(crate) spec fn has_cb(self, i: int, num: int) -> bool {
        exists|k: int| 0 <= k < self.cb_count_at(i) && self.cb_id_at(i, k) == num
    }

    /// Cell `i` is identical in `self` and `other`: same kind, same
    /// stored value, and for a compute cell the same dependencies,
    /// function, cached value and callback registrations.
    pub open(crate) spec fn same_cell_at(self, other: Self, i: int) -> bool {
        self.cells@[i] == other.cells@[i]
    }

    /// `other` has the same cells as `self` apart from stored values and
    /// callback state: same length, kinds, dependency lists, functions,
    /// registration numbers and counters.
    pub open(crate) spec fn same_shape_as(self, other: Self) -> bool {
        same_shape(self.cells@, other.cells@)
    }

    /// The reactor's invariant: dependencies point strictly backwards
    /// (the graph is acyclic by construction), every compute cell's
    /// cached value is consistent with its function and its
    /// dependencies' current values, and every callback registry is well
    /// formed.
    pub open(crate) spec fn wf(self) -> bool {
        &&& graph_wf(self.cells@)
        &&& consistent(self.cells@)
        &&& regs_wf(self.cells@)
    }

    /// A reactor with no cells.
    pub fn new() -> (r: Self)
        ensures
            r.wf(),
            r.num_cells() == 0,
    {
        Reactor { cells: Vec::new() }
    }

    /// Creates an input cell holding the given initial value, returning
    /// its identifier.
    pub fn create_input(&mut self, initial: T) -> (r: InputCellID)
        requires
            old(self).wf(),
        ensures
            final(self).wf(),
            r.idx() == old(self).num_cells(),
            final(self).num_cells() == old(self).num_cells() + 1,
            forall|i: int|
                0 <= i < old(self).num_cells() ==> #[trigger] final(self).same_cell_at(
                    *old(self),
                    i,
                ),
            final(self).is_input_at(r.idx()),
            final(self).value_at(r.idx()) == initial,
    {
        let ghost pre = self.cells@;
        let id = InputCellID(self.cells.len());
        self.cells.push(Cell::Input(initial));
        proof {
            lemma_consistent_preserved(pre, self.cells@);
        }
        id
    }

    /// Creates a compute cell with the given dependencies and function.
    ///
    /// The function receives the dependencies' values in declared order.
    /// If every dependency exists, the cell is created with its value
    /// already computed; if some dependency does not exist, one such
    /// identifier is reported and nothing is created or changed.
    pub fn create_compute(&mut self, dependencies: &[CellID], compute_func: F) -> (r: Result<
        ComputeCellID,
        CellID,
    >)
        requires
            old(self).wf(),
        ensures
            final(self).wf(),
            r is Ok <==> (forall|k: int|
                0 <= k < dependencies@.len() ==> 0 <= (#[trigger] dependencies@[k]).idx() < old(self).num_cells()),
            match r {
                Ok(cid) => {
                    &&& cid.idx() == old(self).num_cells()
                    &&& final(self).num_cells() == old(self).num_cells() + 1
                    &&& forall|i: int|
                        0 <= i < old(self).num_cells() ==> #[trigger] final(self).same_cell_at(
                            *old(self),
                            i,
                        )
                    &&& final(self).is_compute_at(cid.idx())
                    &&& final(self).deps_at(cid.idx()) == dependencies@
                    &&& final(self).func_at(cid.idx()) == compute_func
                    &&& final(self).cb_count_at(cid.idx()) == 0
                    &&& final(self).next_cb_at(cid.idx()) == 0
                    &&& final(self).value_at(cid.idx()) == compute_func.spec_call(
                        old(self).values_of(dependencies@),
                    )
                },
                Err(d) => {
                    &&& dependencies@.contains(d)
                    &&& !(0 <= d.idx() < old(self).num_cells())
                    &&& *final(self) == *old(self)
                },
            },
    {
        let n = dependencies.len();
        let mut k: usize = 0;
        while k < n
            invariant
                n == dependencies@.len(),
                k <= n,
                old(self).wf(),
                *self == *old(self),
                forall|j: int|
                    0 <= j < k ==> 0 <= (#[trigger] dependencies@[j]).idx() < self.cells@.len(),
            decreases n - k,
        {
            let d = dependencies[k];
            let idx = d.arena_index();
            if idx >= self.cells.len() {
                proof {
                    assert(dependencies@[k as int] == d);
                }
                return Err(d);
            }
            k = k + 1;
        }
        let mut deps_vec: Vec<CellID> = Vec::new();
        let mut j: usize = 0;
        while j < n
            invariant
                n == dependencies@.len(),
                j <= n,
                deps_vec@ == dependencies@.take(j as int),
            decreases n - j,
        {
            deps_vec.push(dependencies[j]);
            proof {
                assert(deps_vec@ =~= dependencies@.take(j + 1));
            }
            j = j + 1;
        }
        proof {
            assert(deps_vec@ =~= dependencies@);
        }
        let initial = evaluate(&self.cells, &deps_vec, &compute_func);
        let cid = ComputeCellID(self.cells.len());
        let ghost pre = self.cells@;
        self.cells.push(
            Cell::Compute(
                ComputeCell {
                    deps: deps_vec,
                    func: compute_func,
                    cache: initial,
                    callbacks: Vec::new(),
                    next_cb: 0,
                },
            ),
        );
        proof {
            lemma_consistent_preserved(pre, self.cells@);
            lemma_dep_vals_agree(pre, self.cells@, dependencies@);
            assert(consistent_at(self.cells@, pre.len() as int));
        }
        Ok(cid)
    }

    /// The identifier names an existing cell of its own kind: an input
    /// identifier an input cell, a compute identifier a compute cell.
    /// An identifier of the wrong kind counts as naming no cell.
    pub open(crate) spec fn names_cell(self, id: CellID) -> bool {
        match id {
            CellID::Input(i) => self.is_input_at(i.idx()),
            CellID::Compute(c) => self.is_compute_at(c.idx()),
        }
    }

    /// Returns the current value of the cell the identifier names, or
    /// nothing if no such cell exists. An identifier of the wrong kind
    /// — one whose raw handle names a cell of the other kind — is
    /// treated exactly like a nonexistent one.
    pub fn value(&self, id: CellID) -> (r: Option<T>)
        ensures
            r == if self.names_cell(id) {
                Some(self.value_at(id.idx()))
            } else {
                None::<T>
            },
    {
        let idx = id.arena_index();
        if idx >= self.cells.len() {
            return None;
        }
        match id {
            CellID::Input(_) => match &self.cells[idx] {
                Cell::Input(v) => Some(*v),
                Cell::Compute(_) => None,
            },
            CellID::Compute(_) => match &self.cells[idx] {
                Cell::Compute(cc) => Some(cc.cache),
                Cell::Input(_) => None,
            },
        }
    }

    /// Adds a callback to the given compute cell, returning the fresh
    /// registration identifier, or nothing — and changing nothing — if
    /// the identifier names no existing compute cell.
    pub fn add_callback(&mut self, id: ComputeCellID, callback: C) -> (r: Option<CallbackID>)
        requires
            old(self).wf(),
            old(self).is_compute_at(id.idx()) ==> old(self).next_cb_at(id.idx())
                < usize::MAX as int,
        ensures
            final(self).wf(),
            r is Some <==> old(self).is_compute_at(id.idx()),
            r is None ==> *final(self) == *old(self),
            r matches Some(cb) ==> {
                &&& cb.num() == old(self).next_cb_at(id.idx())
                &&& final(self).num_cells() == old(self).num_cells()
                &&& forall|i: int|
                    0 <= i < old(self).num_cells() && i != id.idx()
                        ==> #[trigger] final(self).same_cell_at(*old(self), i)
                &&& final(self).is_compute_at(id.idx())
                &&& final(self).value_at(id.idx()) == old(self).value_at(id.idx())
                &&& final(self).deps_at(id.idx()) == old(self).deps_at(id.idx())
                &&& final(self).func_at(id.idx()) == old(self).func_at(id.idx())
                &&& final(self).next_cb_at(id.idx()) == old(self).next_cb_at(id.idx()) + 1
                &&& final(self).cb_count_at(id.idx()) == old(self).cb_count_at(id.idx()) + 1
                &&& forall|k: int|
                    0 <= k < old(self).cb_count_at(id.idx()) ==> #[trigger] final(self).cb_id_at(
                        id.idx(),
                        k,
                    ) == old(self).cb_id_at(id.idx(), k) && final(self).cb_at(id.idx(), k) == old(self).cb_at(id.idx(), k)
                &&& final(self).cb_id_at(id.idx(), old(self).cb_count_at(id.idx())) == cb.num()
                &&& final(self).cb_at(id.idx(), old(self).cb_count_at(id.idx())) == callback
            },
    {
        let idx = id.0;
        if idx >= self.cells.len() {
            return None;
        }
        let is_comp = match &self.cells[idx] {
            Cell::Compute(_) => true,
            Cell::Input(_) => false,
        };
        if !is_comp {
            return None;
        }
        let ghost pre = self.cells@;
        let cref = &mut self.cells[idx];
        let num = add_cb_entry(cref, callback);
        proof {
            assert forall|i: int| 0 <= i < pre.len() implies cur_of(self.cells@, i)
                == #[trigger] cur_of(pre, i) by {}
            lemma_consistent_preserved(pre, self.cells@);
            assert(regs_wf_at(
                self.cells@[idx as int]->Compute_0.callbacks@,
                self.cells@[idx as int]->Compute_0.next_cb as int,
            ));
        }
        Some(CallbackID(num))
    }

    /// Removes the callback a registration identifier names from the
    /// given compute cell. Reports whether the cell or the registration
    /// did not exist; nothing changes unless the removal happens.
    pub fn remove_callback(&mut self, cell: ComputeCellID, callback: CallbackID) -> (r: Result<
        (),
        RemoveCallbackError,
    >)
        requires
            old(self).wf(),
        ensures
            final(self).wf(),
            !old(self).is_compute_at(cell.idx()) ==> r == Err::<(), RemoveCallbackError>(
                RemoveCallbackError::NonexistentCell,
            ) && *final(self) == *old(self),
            old(self).is_compute_at(cell.idx()) && !old(self).has_cb(cell.idx(), callback.num())
                ==> r == Err::<(), RemoveCallbackError>(RemoveCallbackError::NonexistentCallback)
                && *final(self) == *old(self),
            old(self).is_compute_at(cell.idx()) && old(self).has_cb(cell.idx(), callback.num())
                ==> {
                &&& r == Ok::<(), RemoveCallbackError>(())
                &&& final(self).num_cells() == old(self).num_cells()
                &&& forall|i: int|
                    0 <= i < old(self).num_cells() && i != cell.idx()
                        ==> #[trigger] final(self).same_cell_at(*old(self), i)
                &&& final(self).is_compute_at(cell.idx())
                &&& final(self).value_at(cell.idx()) == old(self).value_at(cell.idx())
                &&& final(self).deps_at(cell.idx()) == old(self).deps_at(cell.idx())
                &&& final(self).func_at(cell.idx()) == old(self).func_at(cell.idx())
                &&& final(self).next_cb_at(cell.idx()) == old(self).next_cb_at(cell.idx())
                &&& !final(self).has_cb(cell.idx(), callback.num())
                &&& final(self).cb_count_at(cell.idx()) == old(self).cb_count_at(cell.idx()) - 1
                &&& exists|k: int|
                    {
                        &&& 0 <= k < old(self).cb_count_at(cell.idx())
                        &&& #[trigger] old(self).cb_id_at(cell.idx(), k) == callback.num()
                        &&& forall|j: int|
                            0 <= j < k ==> #[trigger] final(self).cb_id_at(cell.idx(), j) == old(self).cb_id_at(cell.idx(), j) && final(self).cb_at(cell.idx(), j) == old(self).cb_at(cell.idx(), j)
                        &&& forall|j: int|
                            k <= j < old(self).cb_count_at(cell.idx()) - 1 ==> #[trigger] final(self).cb_id_at(cell.idx(), j) == old(self).cb_id_at(cell.idx(), j + 1)
                                && final(self).cb_at(cell.idx(), j) == old(self).cb_at(
                                cell.idx(),
                                j + 1,
                            )
                    }
            },
    {
        let idx = cell.0;
        if idx >= self.cells.len() {
            return Err(RemoveCallbackError::NonexistentCell);
        }
        let is_comp = match &self.cells[idx] {
            Cell::Compute(_) => true,
            Cell::Input(_) => false,
        };
        if !is_comp {
            return Err(RemoveCallbackError::NonexistentCell);
        }
        let pos: Option<usize> = match &self.cells[idx] {
            Cell::Compute(cc) => find_cb_index(&cc.callbacks, callback.0),
            Cell::Input(_) => None,
        };
        let k = match pos {
            None => {
                return Err(RemoveCallbackError::NonexistentCallback);
            },
            Some(k) => k,
        };
        let ghost pre = self.cells@;
        let cref = &mut self.cells[idx];
        remove_cb_at(cref, k);
        proof {
            assert forall|i: int| 0 <= i < pre.len() implies cur_of(self.cells@, i)
                == #[trigger] cur_of(pre, i) by {}
            lemma_consistent_preserved(pre, self.cells@);
            assert(pre[idx as int]->Compute_0.callbacks@[k as int].id == callback.0);
            assert(old(self).cb_id_at(cell.idx(), k as int) == callback.num());
            assert(self.cells@[idx as int]->Compute_0.callbacks@
                == pre[idx as int]->Compute_0.callbacks@.remove(k as int));
            assert(regs_wf_at(
                self.cells@[idx as int]->Compute_0.callbacks@,
                self.cells@[idx as int]->Compute_0.next_cb as int,
            ));
            assert(regs_wf_at(
                pre[idx as int]->Compute_0.callbacks@,
                pre[idx as int]->Compute_0.next_cb as int,
            ));
            assert(!self.has_cb(cell.idx(), callback.num())) by {
                if self.has_cb(cell.idx(), callback.num()) {
                    let kk = choose|kk: int|
                        0 <= kk < self.cb_count_at(cell.idx()) && self.cb_id_at(cell.idx(), kk)
                            == callback.num();
                    if kk < k {
                        assert(pre[idx as int]->Compute_0.callbacks@[kk].id == callback.0);
                        assert(false);
                    } else {
                        assert(pre[idx as int]->Compute_0.callbacks@[kk + 1].id == callback.0);
                        assert(false);
                    }
                }
            }
        }
        Ok(())
    }

    /// Looks up a live callback registration, so a caller can inspect
    /// the callback it handed in; nothing if the cell or the
    /// registration does not exist.
    pub fn get_callback(&self, cell: ComputeCellID, callback: CallbackID) -> (r: Option<&C>)
        ensures
            match r {
                Some(c) => self.is_compute_at(cell.idx()) && exists|k: int|
                    {
                        &&& 0 <= k < self.cb_count_at(cell.idx())
                        &&& #[trigger] self.cb_id_at(cell.idx(), k) == callback.num()
                        &&& *c == self.cb_at(cell.idx(), k)
                    },
                None => !(self.is_compute_at(cell.idx()) && self.has_cb(
                    cell.idx(),
                    callback.num(),
                )),
            },
    {
        let idx = cell.0;
        if idx >= self.cells.len() {
            return None;
        }
        let r: Option<&C> = match &self.cells[idx] {
            Cell::Input(_) => None,
            Cell::Compute(_) => find_cb_entry(&self.cells[idx], callback.0),
        };
        proof {
            if r is Some {
                let k = choose|k: int|
                    {
                        &&& 0 <= k < self.cells@[idx as int]->Compute_0.callbacks@.len()
                        &&& (#[trigger] (self.cells@[idx as int]->Compute_0.callbacks)@[k]).id
                            == callback.0
                        &&& *r->Some_0 == self.cells@[idx as int]->Compute_0.callbacks@[k].cb
                    };
                assert(self.cb_id_at(cell.idx(), k) == callback.num());
                assert(*r->Some_0 == self.cb_at(cell.idx(), k));
            }
        }
        r
    }

    /// Sets the value of the given input cell and propagates the change:
    /// the compute cells transitively dependent on it are re-evaluated
    /// in dependency order, and each callback of every compute cell
    /// whose value changed — judged by `==` on the old and the new value
    /// — fires exactly once with the cell's final value. Returns false,
    /// changing nothing, if the identifier does not name an existing
    /// input cell.
    pub fn set_value(&mut self, id: InputCellID, new_value: T) -> (r: bool)
        requires
            old(self).wf(),
        ensures
            final(self).wf(),
            r == old(self).is_input_at(id.idx()),
            !r ==> *final(self) == *old(self),
            r ==> {
                &&& final(self).num_cells() == old(self).num_cells()
                &&& final(self).same_shape_as(*old(self))
                &&& final(self).is_input_at(id.idx())
                &&& final(self).value_at(id.idx()) == new_value
                &&& forall|i: int|
                    old(self).is_input_at(i) && i != id.idx() ==> #[trigger] final(self).value_at(
                        i,
                    ) == old(self).value_at(i)
                &&& (vstd::laws_eq::obeys_concrete_eq::<T>() ==> forall|i: int, k: int|
                    old(self).is_compute_at(i) && 0 <= k < old(self).cb_count_at(i)
                        ==> #[trigger] final(self).cb_at(i, k).observed() == if old(self).value_at(i) == final(self).value_at(i) {
                        old(self).cb_at(i, k).observed()
                    } else {
                        old(self).cb_at(i, k).observed().push(final(self).value_at(i))
                    })
                &&& forall|i: int, k: int|
                    old(self).is_compute_at(i) && 0 <= k < old(self).cb_count_at(i) ==> (
                    #[trigger] final(self).cb_at(i, k).observed() == old(self).cb_at(
                        i,
                        k,
                    ).observed() || final(self).cb_at(i, k).observed() == old(self).cb_at(
                        i,
                        k,
                    ).observed().push(final(self).value_at(i)))
            },
    {
        let idx = id.0;
        if idx >= self.cells.len() {
            return false;
        }
        let is_input = match &self.cells[idx] {
            Cell::Input(_) => true,
            Cell::Compute(_) => false,
        };
        if !is_input {
            return false;
        }
        let ghost pre = self.cells@;
        set_input_at(&mut self.cells, idx, new_value);
        let ghost mid = self.cells@;
        proof {
            assert forall|i: int|
                0 <= i < mid.len() && mid[i] is Compute implies deps_below(
                #[trigger] (mid[i]->Compute_0.deps)@,
                i,
            ) by {
                assert(mid[i] == pre[i]);
            }
        }
        let fired = recompute(&mut self.cells, idx, Ghost(pre));
        let ghost post = self.cells@;
        proof {
            assert(!fired@.contains(idx)) by {
                if fired@.contains(idx) {
                    let k = choose|k: int| 0 <= k < fired@.len() && fired@[k] == idx;
                    assert(mid[fired@[k] as int] is Compute);
                    assert(false);
                }
            }
            assert forall|k: int|
                0 <= k < fired@.len() implies #[trigger] fired@[k] < post.len() && post[fired@[k] as int]
                is Compute by {
                assert(mid[fired@[k] as int] is Compute);
            }
        }
        dispatch(&mut self.cells, &fired);
        proof {
            self.lemma_set_value_glue(pre, mid, post, fired@, idx, new_value);
        }
        true
    }

    /// `other` has the same graph as `self` — same length, kinds,
    /// dependency lists and functions — and its input cells hold the
    /// same values.
    pub open(crate) spec fn same_graph_same_inputs(self, other: Self) -> bool {
        &&& self.num_cells() == other.num_cells()
        &&& forall|i: int|
            0 <= i < self.num_cells() ==> (#[trigger] self.is_compute_at(i)
                <==> other.is_compute_at(i))
        &&& forall|i: int|
            0 <= i < self.num_cells() && #[trigger] self.is_compute_at(i) ==> self.deps_at(i)
                == other.deps_at(i) && self.func_at(i) == other.func_at(i)
        &&& forall|i: int|
            0 <= i < self.num_cells() && #[trigger] self.is_input_at(i) ==> self.value_at(i)
                == other.value_at(i)
    }

    /// Law: a compute cell's observable value always equals its
    /// function applied to its dependencies' current observable values
    /// — and hence, by applying this at every dependency in turn,
    /// recursively to the dependency functions all the way down to the
    /// input cells.
    pub proof fn lemma_value_consistent(self, i: int)
        requires
            self.wf(),
            self.is_compute_at(i),
        ensures
            self.value_at(i) == self.func_at(i).spec_call(self.values_of(self.deps_at(i))),
    {
        assert(consistent_at(self.cells@, i));
    }

    /// Law: reads are idempotent. `value` pins its result to the
    /// reactor's state alone and takes the reactor by shared reference,
    /// so any two results it may return for the same identifier with no
    /// intervening write are identical.
    pub proof fn lemma_reads_idempotent(self, id: CellID, r1: Option<T>, r2: Option<T>)
        requires
            r1 == if self.names_cell(id) {
                Some(self.value_at(id.idx()))
            } else {
                None::<T>
            },
            r2 == if self.names_cell(id) {
                Some(self.value_at(id.idx()))
            } else {
                None::<T>
            },
        ensures
            r1 == r2,
    {
    }

    /// Law: the observable values are deterministic — a function of the
    /// graph's structure and the input cells' current values alone. Two
    /// well-formed reactors with the same cells and equal input values
    /// agree on every cell's value, no matter by which sequence of
    /// operations each arrived at its state.
    pub proof fn lemma_values_deterministic(self, other: Self, i: int)
        requires
            self.wf(),
            other.wf(),
            self.same_graph_same_inputs(other),
            0 <= i < self.num_cells(),
        ensures
            self.value_at(i) == other.value_at(i),
        decreases i,
    {
        if self.is_compute_at(i) {
            let ds = self.deps_at(i);
            assert(deps_below(ds, i));
            assert forall|k: int|
                0 <= k < ds.len() implies cur_of(self.cells@, #[trigger] ds[k].idx()) == cur_of(
                other.cells@,
                ds[k].idx(),
            ) by {
                self.lemma_values_deterministic(other, ds[k].idx());
            }
            lemma_dep_vals_agree(self.cells@, other.cells@, ds);
            assert(consistent_at(self.cells@, i));
            assert(consistent_at(other.cells@, i));
            assert(other.deps_at(i) == ds && other.func_at(i) == self.func_at(i));
        } else {
            assert(self.is_input_at(i));
        }
    }

    /// The bookkeeping behind `set_value`: relates the state after both
    /// propagation phases to the state before the write.
    proof fn lemma_set_value_glue(
        &self,
        pre: Seq<Cell<T, F, C>>,
        mid: Seq<Cell<T, F, C>>,
        post: Seq<Cell<T, F, C>>,
        fired: Seq<usize>,
        idx: usize,
        new_value: T,
    )
        requires
            pre.len() <= usize::MAX,
            graph_wf(pre),
            consistent(pre),
            regs_wf(pre),
            idx < pre.len(),
            pre[idx as int] is Input,
            mid == pre.update(idx as int, Cell::<T, F, C>::Input(new_value)),
            // what recompute guaranteed, mid -> post
            same_shape(mid, post),
            graph_wf(post),
            consistent(post),
            forall|i: int| 0 <= i < mid.len() && mid[i] is Input ==> post[i] == mid[i],
            forall|i: int|
                0 <= i < mid.len() && (#[trigger] mid[i]) is Compute ==> post[i]->Compute_0.callbacks
                    == mid[i]->Compute_0.callbacks,
            forall|k: int|
                0 <= k < fired.len() ==> #[trigger] fired[k] < mid.len() && mid[fired[k] as int]
                    is Compute,
            forall|k1: int, k2: int| 0 <= k1 < k2 < fired.len() ==> fired[k1] < fired[k2],
            vstd::laws_eq::obeys_concrete_eq::<T>() ==> forall|i: usize|
                i < mid.len() && (#[trigger] mid[i as int]) is Compute ==> (fired.contains(i)
                    <==> cur_of(mid, i as int) != cur_of(post, i as int)),
            // what dispatch guaranteed, post -> final
            self.cells@.len() == post.len(),
            forall|i: usize|
                i < post.len() && !fired.contains(i) ==> self.cells@[i as int] == post[i as int],
            forall|i: usize|
                i < post.len() && #[trigger] fired.contains(i) ==> {
                    let a = post[i as int];
                    let b = self.cells@[i as int];
                    &&& b is Compute
                    &&& b->Compute_0.cache == a->Compute_0.cache
                    &&& b->Compute_0.deps == a->Compute_0.deps
                    &&& b->Compute_0.func == a->Compute_0.func
                    &&& b->Compute_0.next_cb == a->Compute_0.next_cb
                    &&& b->Compute_0.callbacks@.len() == a->Compute_0.callbacks@.len()
                    &&& forall|k: int|
                        0 <= k < a->Compute_0.callbacks@.len() ==> {
                            &&& (#[trigger] (b->Compute_0.callbacks)@[k]).id == (
                            a->Compute_0.callbacks)@[k].id
                            &&& (b->Compute_0.callbacks)@[k].cb.observed() == (
                            a->Compute_0.callbacks)@[k].cb.observed().push(cur_of(post, i as int))
                        }
                },
        ensures
            self.wf(),
            self.num_cells() == pre.len(),
            same_shape(pre, self.cells@),
            self.is_input_at(idx as int),
            self.value_at(idx as int) == new_value,
            forall|i: int|
                0 <= i < pre.len() && pre[i] is Input && i != idx ==> #[trigger] self.value_at(i)
                    == cur_of(pre, i),
            forall|i: int|
                0 <= i < pre.len() ==> #[trigger] cur_of(self.cells@, i) == cur_of(post, i),
            vstd::laws_eq::obeys_concrete_eq::<T>() ==> forall|i: int, k: int|
                0 <= i < pre.len() && pre[i] is Compute && 0 <= k
                    < pre[i]->Compute_0.callbacks@.len() ==> (#[trigger] (
                self.cells@[i]->Compute_0.callbacks)@[k]).cb.observed() == if cur_of(pre, i)
                    == cur_of(self.cells@, i) {
                    pre[i]->Compute_0.callbacks@[k].cb.observed()
                } else {
                    pre[i]->Compute_0.callbacks@[k].cb.observed().push(cur_of(self.cells@, i))
                },
            forall|i: int, k: int|
                0 <= i < pre.len() && pre[i] is Compute && 0 <= k
                    < pre[i]->Compute_0.callbacks@.len() ==> ((#[trigger] (
                self.cells@[i]->Compute_0.callbacks)@[k]).cb.observed()
                    == pre[i]->Compute_0.callbacks@[k].cb.observed() || (
                self.cells@[i]->Compute_0.callbacks)@[k].cb.observed()
                    == pre[i]->Compute_0.callbacks@[k].cb.observed().push(
                    cur_of(self.cells@, i),
                )),
    {
        let fin = self.cells@;
        assert(fin.len() == pre.len());
        // the written input is in no fired list entry
        assert(!fired.contains(idx)) by {
            if fired.contains(idx) {
                let k = choose|k: int| 0 <= k < fired.len() && fired[k] == idx;
                assert(mid[fired[k] as int] is Compute);
                assert(false);
            }
        }
        // current values are unchanged by dispatch
        assert forall|i: int| 0 <= i < pre.len() implies #[trigger] cur_of(fin, i) == cur_of(
            post,
            i,
        ) by {
            let iu = i as usize;
            assert(iu as int == i);
            if fired.contains(iu) {
            } else {
                assert(fin[i] == post[i]);
            }
        }
        // shapes survive from mid to the final state
        assert forall|i: int|
            0 <= i < pre.len() implies ((#[trigger] fin[i]) is Compute <==> mid[i] is Compute) && (
        mid[i] is Compute ==> fin[i]->Compute_0.deps == mid[i]->Compute_0.deps
            && fin[i]->Compute_0.func == mid[i]->Compute_0.func && fin[i]->Compute_0.next_cb
            == mid[i]->Compute_0.next_cb && fin[i]->Compute_0.cache == post[i]->Compute_0.cache
            && fin[i]->Compute_0.callbacks@.len() == mid[i]->Compute_0.callbacks@.len()) by {
            let iu = i as usize;
            assert(iu as int == i);
            if fired.contains(iu) {
                assert(post[i] is Compute);
                assert(mid[i] is Compute);
            } else {
                assert(fin[i] == post[i]);
            }
        }
        assert(graph_wf(fin)) by {
            assert forall|i: int|
                0 <= i < fin.len() && fin[i] is Compute implies deps_below(
                #[trigger] (fin[i]->Compute_0.deps)@,
                i,
            ) by {
                assert(mid[i] is Compute);
                assert(fin[i]->Compute_0.deps == mid[i]->Compute_0.deps);
                assert(deps_below((mid[i]->Compute_0.deps)@, i));
            }
        }
        assert(consistent(fin)) by {
            lemma_consistent_preserved(post, fin);
        }
        assert(regs_wf(fin)) by {
            assert forall|i: int|
                0 <= i < fin.len() && fin[i] is Compute implies regs_wf_at(
                #[trigger] (fin[i]->Compute_0.callbacks)@,
                fin[i]->Compute_0.next_cb as int,
            ) by {
                let iu = i as usize;
                assert(iu as int == i);
                assert(mid[i] is Compute);
                assert(mid[i] == pre[i]);
                assert(regs_wf_at((pre[i]->Compute_0.callbacks)@, pre[i]->Compute_0.next_cb as int));
                assert(post[i]->Compute_0.callbacks == mid[i]->Compute_0.callbacks);
                if fired.contains(iu) {
                    assert forall|k: int|
                        0 <= k < fin[i]->Compute_0.callbacks@.len() implies (#[trigger] (
                    fin[i]->Compute_0.callbacks)@[k]).id < fin[i]->Compute_0.next_cb by {
                        assert((fin[i]->Compute_0.callbacks)@[k].id == (
                        post[i]->Compute_0.callbacks)@[k].id);
                    }
                    assert forall|k1: int, k2: int|
                        0 <= k1 < k2 < fin[i]->Compute_0.callbacks@.len() implies (#[trigger] (
                    fin[i]->Compute_0.callbacks)@[k1]).id != (#[trigger] (
                    fin[i]->Compute_0.callbacks)@[k2]).id by {
                        assert((fin[i]->Compute_0.callbacks)@[k1].id == (
                        post[i]->Compute_0.callbacks)@[k1].id);
                        assert((fin[i]->Compute_0.callbacks)@[k2].id == (
                        post[i]->Compute_0.callbacks)@[k2].id);
                    }
                } else {
                    assert(fin[i] == post[i]);
                }
            }
        }
        assert(same_shape(pre, fin)) by {
            assert forall|i: int| 0 <= i < pre.len() implies ((#[trigger] pre[i]) is Compute
                <==> fin[i] is Compute) by {
                if i != idx {
                    assert(mid[i] == pre[i]);
                }
            }
            assert forall|i: int| 0 <= i < pre.len() && (#[trigger] pre[i]) is Compute implies {
                &&& fin[i]->Compute_0.deps == pre[i]->Compute_0.deps
                &&& fin[i]->Compute_0.func == pre[i]->Compute_0.func
                &&& fin[i]->Compute_0.next_cb == pre[i]->Compute_0.next_cb
                &&& fin[i]->Compute_0.callbacks@.len() == pre[i]->Compute_0.callbacks@.len()
                &&& forall|kk: int|
                    0 <= kk < pre[i]->Compute_0.callbacks@.len() ==> (#[trigger] (
                    fin[i]->Compute_0.callbacks)@[kk]).id == (pre[i]->Compute_0.callbacks)@[kk].id
            } by {
                let iu = i as usize;
                assert(iu as int == i);
                assert(i != idx);
                assert(mid[i] == pre[i]);
                assert(post[i]->Compute_0.callbacks == mid[i]->Compute_0.callbacks);
                if fired.contains(iu) {
                    assert forall|kk: int|
                        0 <= kk < pre[i]->Compute_0.callbacks@.len() implies (#[trigger] (
                    fin[i]->Compute_0.callbacks)@[kk]).id == (
                    pre[i]->Compute_0.callbacks)@[kk].id by {
                        assert((fin[i]->Compute_0.callbacks)@[kk].id == (
                        post[i]->Compute_0.callbacks)@[kk].id);
                    }
                } else {
                    assert(fin[i] == post[i]);
                }
            }
        }
        // the written input holds the new value; other inputs are untouched
        assert(fin[idx as int] == post[idx as int]);
        assert(post[idx as int] == mid[idx as int]);
        assert forall|i: int|
            0 <= i < pre.len() && pre[i] is Input && i != idx implies #[trigger] self.value_at(i)
            == cur_of(pre, i) by {
            let iu = i as usize;
            assert(iu as int == i);
            assert(mid[i] == pre[i]);
            assert(post[i] == mid[i]);
            assert(!fired.contains(iu));
            assert(fin[i] == post[i]);
        }
        // the callback bookkeeping
        assert forall|i: int, k: int|
            0 <= i < pre.len() && pre[i] is Compute && 0 <= k
                < pre[i]->Compute_0.callbacks@.len() implies {
            let obs = (#[trigger] (self.cells@[i]->Compute_0.callbacks)@[k]).cb.observed();
            let before = pre[i]->Compute_0.callbacks@[k].cb.observed();
            &&& (obs == before || obs == before.push(cur_of(fin, i)))
            &&& (vstd::laws_eq::obeys_concrete_eq::<T>() ==> obs == if cur_of(pre, i) == cur_of(
                fin,
                i,
            ) {
                before
            } else {
                before.push(cur_of(fin, i))
            })
        } by {
            let iu = i as usize;
            assert(iu as int == i);
            assert(i != idx);
            assert(mid[i] == pre[i]);
            assert(mid[i] is Compute);
            assert(post[i]->Compute_0.callbacks == mid[i]->Compute_0.callbacks);
            assert(cur_of(mid, i) == cur_of(pre, i));
            assert(cur_of(fin, i) == cur_of(post, i));
            if fired.contains(iu) {
                assert((fin[i]->Compute_0.callbacks)@[k].cb.observed() == (
                post[i]->Compute_0.callbacks)@[k].cb.observed().push(cur_of(post, i)));
            } else {
                assert(fin[i] == post[i]);
                if vstd::laws_eq::obeys_concrete_eq::<T>() {
                    assert(cur_of(mid, i) == cur_of(post, i));
                }
            }
        }
    }
}

} // verus!
