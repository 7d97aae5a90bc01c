//! The smallest unit of the grid: a position and an alive/dead state.

use vstd::prelude::*;

verus! {

/// One grid position `(column, row)` with a binary state; `true` is alive.
#[derive(Clone, Copy, Debug)]
pub struct Cell {
    pub position: (u32, u32),
    pub state: bool,
}

impl Cell {
    /// The cell with the same position and the opposite state.
    pub open spec fn switched(self) -> Cell {
        Cell { position: self.position, state: !self.state }
    }

    /// A cell at `position` with the given initial state.
    pub fn new(position: (u32, u32), state: bool) -> (cell: Cell)
        ensures
            cell.position == position,
            cell.state == state,
    {
        Cell { position, state }
    }

    /// Flips the state in place; the position stays.
    pub fn switch(&mut self)
        ensures
            *final(self) == old(self).switched(),
    {
        self.state = !self.state;
    }

    /// Flipping a cell twice gives the cell back.
    pub proof fn lemma_switch_twice(self)
        ensures
            self.switched().switched() == self,
    {
    }
}

/// The states of `cells`, in order.
pub open spec fn states_of(cells: Seq<Cell>) -> Seq<bool> {
    Seq::new(cells.len(), |k: int| cells[k].state)
}

/// The positions of `cells`, in order.
pub open spec fn positions_of(cells: Seq<Cell>) -> Seq<(u32, u32)> {
    Seq::new(cells.len(), |k: int| cells[k].position)
}

/// Flips the cell at `index` and leaves the others as they are.
pub fn flip_cell(cells: &mut Vec<Cell>, index: u32)
    requires
        index < old(cells).len(),
    ensures
        final(cells)@ == old(cells)@.update(index as int, old(cells)@[index as int].switched()),
{
    cells[index as usize].switch();
}

} // verus!
