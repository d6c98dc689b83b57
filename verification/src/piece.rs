//! Pieces: the units of work of which a transaction consists.

use vstd::prelude::*;

verus! {

/// Identifier of a piece within its transaction.
#[derive(Clone, Copy, PartialEq, Eq, Structural, Hash, Debug)]
pub struct Pid(pub u32);

impl Pid {
    pub fn new(raw: u32) -> (pid: Pid)
        ensures
            pid == Pid(raw),
    {
        Pid(raw)
    }
}

/// A unit of work. Whoever drives the transaction runs the work itself, and finds
/// it by the piece's identifier and the name of its transaction.
#[derive(Debug)]
pub struct Piece {
    pub pid: Pid,
    pub tname: String,
    pub title: String,
    pub rank: usize,
}

impl Piece {
    pub fn new(pid: Pid, tname: String, title: String, rank: usize) -> (piece: Piece)
        ensures
            piece == (Piece { pid, tname, title, rank }),
    {
        Piece { pid, tname, title, rank }
    }

    /// How far the transaction has got once this piece has committed.
    pub fn rank(&self) -> (rank: usize)
        ensures
            rank == self.rank,
    {
        self.rank
    }
}

impl Clone for Piece {
    fn clone(&self) -> (piece: Piece)
        ensures
            piece == *self,
    {
        Piece {
            pid: self.pid,
            tname: self.tname.clone(),
            title: self.title.clone(),
            rank: self.rank,
        }
    }
}

} // verus!
