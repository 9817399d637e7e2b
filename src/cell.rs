//! A single board cell and its marked flag.

use vstd::prelude::*;
use crate::grid::{CellSide, side_of_row};

verus! {

/// Why a shot was not taken.
#[derive(Clone, Copy, Debug, PartialEq, Eq, Structural)]
pub enum TurnError {
    /// The cell was already targeted.
    AlreadyTargeted,
    /// The cell is off the board or outside the opponent's territory.
    InvalidTarget,
    /// It is not the acting side's turn, or the game is over.
    OutOfTurn,
}

/// A board cell: its coordinate and whether it has been targeted.
#[derive(Clone, Copy, Debug, PartialEq, Eq, Structural)]
pub struct Cell {
    pub row: usize,
    pub column: usize,
    pub marked: bool,
}

impl Cell {
    /// The unmarked cell at `c`.
    pub open spec fn new_spec(c: crate::grid::Coord) -> Cell {
        Cell { row: c.row, column: c.column, marked: false }
    }

    /// A fresh, unmarked cell.
    pub fn new(row: usize, column: usize) -> (c: Cell)
        ensures
            c == (Cell { row, column, marked: false }),
    {
        Cell { row, column, marked: false }
    }

    /// Sets the cell's marked flag. This is done at most once: a second
    /// call reports `AlreadyTargeted` and changes nothing. Taking a shot at
    /// the cell, with all that follows from it, is `Cell::mark`.
    pub fn set_marked(&mut self) -> (r: Result<(), TurnError>)
        ensures
            old(self).marked ==> r == Err::<(), TurnError>(TurnError::AlreadyTargeted),
            !old(self).marked ==> r is Ok,
            final(self).marked,
            final(self).row == old(self).row,
            final(self).column == old(self).column,
    {
        if self.marked {
            Err(TurnError::AlreadyTargeted)
        } else {
            self.marked = true;
            Ok(())
        }
    }

    /// The side whose territory holds this cell.
    pub fn side(&self) -> (s: CellSide)
        ensures
            s == side_of_row(self.row as int),
    {
        crate::grid::side_of(self.row)
    }
}

/// A board cell in the earlier, minimal form: coordinate and marked flag.
#[derive(Clone, Copy, Debug, PartialEq, Eq, Structural)]
pub struct Celula {
    pub linha: usize,
    pub coluna: usize,
    pub marcada: bool,
}

impl Celula {
    /// Marks the cell.
    pub fn marcar(&mut self)
        ensures
            final(self).marcada,
            final(self).linha == old(self).linha,
            final(self).coluna == old(self).coluna,
    {
        self.marcada = true;
    }

    /// Takes a shot at the cell from the player: refused as already
    /// targeted when the cell is marked, as an invalid target when it lies in
    /// the player's own half, and otherwise the cell is marked.
    pub fn atirar(&mut self) -> (r: Result<(), TurnError>)
        ensures
            r == if old(self).marcada {
                Err::<(), TurnError>(TurnError::AlreadyTargeted)
            } else if side_of_row(old(self).linha as int) == CellSide::Player {
                Err::<(), TurnError>(TurnError::InvalidTarget)
            } else {
                Ok::<(), TurnError>(())
            },
            r is Ok ==> *final(self) == (Celula { marcada: true, ..*old(self) }),
            r is Err ==> *final(self) == *old(self),
    {
        if self.marcada {
            Err(TurnError::AlreadyTargeted)
        } else if crate::grid::side_of(self.linha) == CellSide::Player {
            Err(TurnError::InvalidTarget)
        } else {
            self.marcada = true;
            Ok(())
        }
    }

    /// Whether the cell is marked.
    pub fn esta_marcada(&self) -> (r: bool)
        ensures
            r == self.marcada,
    {
        self.marcada
    }
}

} // verus!
