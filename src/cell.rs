use vstd::prelude::*;

verus! {

/// The state of one square of the grid.
#[derive(Clone, Copy, Debug, PartialEq, Eq, Structural)]
pub enum Cell {
    Dead,
    Alive,
}

/// The numeric encoding of a cell: 0 for `Dead`, 1 for `Alive`.
pub open spec fn code_of(c: Cell) -> nat {
    match c {
        Cell::Dead => 0,
        Cell::Alive => 1,
    }
}

/// The other state.
pub open spec fn flipped(c: Cell) -> Cell {
    match c {
        Cell::Dead => Cell::Alive,
        Cell::Alive => Cell::Dead,
    }
}

impl Cell {
    /// The byte a renderer reads for this cell.
    pub fn code(self) -> (r: u8)
        ensures
            r as nat == code_of(self),
    {
        match self {
            Cell::Dead => 0,
            Cell::Alive => 1,
        }
    }

    /// Flips the cell between `Dead` and `Alive`.
    pub fn toggle(&mut self)
        ensures
            *final(self) == flipped(*old(self)),
    {
        *self = match *self {
            Cell::Dead => Cell::Alive,
            Cell::Alive => Cell::Dead,
        };
    }
}

} // verus!
