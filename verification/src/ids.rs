//! Identifier types for the two kinds of cells and for callback
//! registrations.
//!
//! Input and compute identifiers wrap the same integer handle space (the
//! index of the cell in the reactor's arena) but are distinct types, so a
//! function expecting one kind cannot receive the other.
use vstd::prelude::*;

verus! {

/// Identifier of an input cell: a cell whose value is set directly.
#[derive(Clone, Copy, Debug, PartialEq, Eq, Structural)]
pub struct InputCellID(pub(crate) usize);

/// Identifier of a compute cell: a cell whose value is derived from other
/// cells by a pure function.
#[derive(Clone, Copy, Debug, PartialEq, Eq, Structural)]
pub struct ComputeCellID(pub(crate) usize);

/// Identifier of one callback registration, unique within the compute cell
/// that owns the registration.
#[derive(Clone, Copy, Debug, PartialEq, Eq, Structural)]
pub struct CallbackID(pub(crate) usize);

/// Either kind of cell identifier; dependency lists hold these.
#[derive(Clone, Copy, Debug, PartialEq, Eq, Structural)]
pub enum CellID {
    Input(InputCellID),
    Compute(ComputeCellID),
}

impl InputCellID {
    /// The arena index this identifier names.
    pub open(crate) spec fn idx(self) -> int {
        self.0 as int
    }
}

impl ComputeCellID {
    /// The arena index this identifier names.
    pub open(crate) spec fn idx(self) -> int {
        self.0 as int
    }
}

impl CallbackID {
    /// The per-cell registration number.
    pub open(crate) spec fn num(self) -> int {
        self.0 as int
    }
}

impl CellID {
    /// The arena index this identifier names, whichever kind it is.
    pub open(crate) spec fn idx(self) -> int {
        match self {
            CellID::Input(id) => id.idx(),
            CellID::Compute(id) => id.idx(),
        }
    }

    /// The arena index this identifier names, as a machine integer.
    pub(crate) fn arena_index(&self) -> (r: usize)
        ensures
            r == self.idx(),
    {
        match self {
            CellID::Input(cellid) => cellid.0,
            CellID::Compute(cellid) => cellid.0,
        }
    }

    /// Returns the raw numeric handle shared by both identifier kinds.
    pub fn get_id(&self) -> (r: u64)
        ensures
            r == self.idx(),
    {
        match self {
            CellID::Input(cellid) => cellid.0 as u64,
            CellID::Compute(cellid) => cellid.0 as u64,
        }
    }
}

/// Why a `remove_callback` call failed: the cell identifier named no
/// compute cell, or the cell exists but holds no such registration.
#[derive(Clone, Copy, Debug, PartialEq, Eq, Structural)]
pub enum RemoveCallbackError {
    NonexistentCell,
    NonexistentCallback,
}

} // verus!
