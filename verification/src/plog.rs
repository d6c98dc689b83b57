//! What a transaction hands to persistent memory: ranges to flush and entries to log.

use vstd::prelude::*;

use crate::txn::Tid;

verus! {

/// Size and alignment of a range of memory.
#[derive(Clone, Copy, PartialEq, Eq, Structural, Debug)]
pub struct Layout {
    pub size: usize,
    pub align: usize,
}

/// An entry of the persistent log: the range that transaction `id` is about to
/// change, if it exists already, and its layout.
#[derive(Clone, Copy, PartialEq, Eq, Structural, Debug)]
pub struct PLog {
    pub ptr: Option<usize>,
    pub layout: Layout,
    pub id: Tid,
}

impl PLog {
    pub fn new(ptr: usize, layout: Layout, id: Tid) -> (log: PLog)
        ensures
            log == (PLog { ptr: Some(ptr), layout, id }),
    {
        PLog { ptr: Some(ptr), layout, id }
    }

    pub fn new_none(layout: Layout, id: Tid) -> (log: PLog)
        ensures
            log == (PLog { ptr: None, layout, id }),
    {
        PLog { ptr: None, layout, id }
    }
}

/// A range of memory that a transaction changes; without an address while the
/// range is still to be allocated.
#[derive(Clone, Copy, PartialEq, Eq, Structural, Debug)]
pub struct DataRecord {
    pub ptr: Option<usize>,
    pub layout: Layout,
}

impl DataRecord {
    pub open spec fn log(self, id: Tid) -> PLog {
        PLog { ptr: self.ptr, layout: self.layout, id }
    }

    /// The log entry of this record for transaction `id`.
    pub fn as_log(&self, id: Tid) -> (log: PLog)
        ensures
            log == self.log(id),
    {
        match self.ptr {
            Some(ptr) => PLog::new(ptr, self.layout, id),
            None => PLog::new_none(self.layout, id),
        }
    }
}

} // verus!
