//! Transaction identity and the table of transaction progress that all
//! transactions share.

use vstd::prelude::*;

use crate::tcore::BenchmarkCounter;

verus! {

/// Identifier of a transaction.
#[derive(Clone, Copy, PartialEq, Eq, Structural, Hash, Debug)]
pub struct Tid(pub u32);

impl Tid {
    pub fn new(raw: u32) -> (tid: Tid)
        ensures
            tid == Tid(raw),
    {
        Tid(raw)
    }

    /// The identifier as a plain number, the key under which dependencies are kept.
    pub fn raw(&self) -> (raw: u32)
        ensures
            raw == self.0,
    {
        self.0
    }
}

impl Default for Tid {
    fn default() -> (tid: Tid)
        ensures
            tid == Tid(0),
    {
        Tid(0)
    }
}

/// Life cycle of a transaction.
#[derive(Clone, Copy, PartialEq, Eq, Structural, Debug)]
pub enum TxState {
    EMBRYO,
    ACTIVE,
    COMMITTED,
    PERSIST,
}

/// Why a piece was given up.
#[derive(Clone, Copy, PartialEq, Eq, Structural, Debug)]
pub enum AbortReason {
    FailedLocking,
}

/// The progress of one transaction as other transactions see it.
#[derive(Clone, Copy, PartialEq, Eq, Structural, Debug)]
pub struct TxnInfo {
    pub tid: Tid,
    pub committed: bool,
    pub persisted: bool,
    pub rank: usize,
}

impl TxnInfo {
    /// The rule by which a transaction at `rank` may pass this one: it has
    /// committed, or it has got at least as far.
    pub open spec fn lets_start(self, rank: usize) -> bool {
        self.committed || self.rank >= rank
    }

    pub fn new(tid: Tid) -> (info: TxnInfo)
        ensures
            info == (TxnInfo { tid, committed: false, persisted: false, rank: 0 }),
    {
        TxnInfo { tid, committed: false, persisted: false, rank: 0 }
    }

    pub fn id(&self) -> (tid: Tid)
        ensures
            tid == self.tid,
    {
        self.tid
    }

    pub fn has_commit(&self) -> (b: bool)
        ensures
            b == self.committed,
    {
        self.committed
    }

    pub fn has_persist(&self) -> (b: bool)
        ensures
            b == self.persisted,
    {
        self.persisted
    }

    /// Whether the work of the given rank lies behind this transaction.
    pub fn has_done(&self, rank: usize) -> (b: bool)
        ensures
            b == (self.rank >= rank),
    {
        self.rank >= rank
    }

    pub fn rank(&self) -> (rank: usize)
        ensures
            rank == self.rank,
    {
        self.rank
    }

    pub fn commit(&mut self)
        ensures
            *final(self) == (TxnInfo { committed: true, ..*old(self) }),
    {
        self.committed = true;
    }

    pub fn persist(&mut self)
        ensures
            *final(self) == (TxnInfo { persisted: true, ..*old(self) }),
    {
        self.persisted = true;
    }

    pub fn done(&mut self, rank: usize)
        ensures
            *final(self) == (TxnInfo { rank, ..*old(self) }),
    {
        self.rank = rank;
    }
}

/// Reference to an entry of a [`TxnTable`]; copies refer to the same entry.
#[derive(Clone, Copy, PartialEq, Eq, Structural, Debug)]
pub struct TxnRef(pub usize);

/// What a [`TxnTable`] holds.
#[verifier::ext_equal]
pub struct TxnTableView {
    pub infos: Seq<TxnInfo>,
    pub success: u64,
    pub pmem: bool,
}

impl TxnTableView {
    pub open spec fn valid(self, r: TxnRef) -> bool {
        r.0 < self.infos.len()
    }

    pub open spec fn at(self, r: TxnRef) -> TxnInfo {
        self.infos[r.0 as int]
    }

    pub open spec fn with(self, r: TxnRef, info: TxnInfo) -> TxnTableView {
        TxnTableView { infos: self.infos.update(r.0 as int, info), ..self }
    }
}

/// The progress of every transaction of the program, the count of commits, and
/// whether the memory below is persistent.
pub struct TxnTable {
    infos: Vec<TxnInfo>,
    counter: BenchmarkCounter,
    pmem: bool,
}

impl View for TxnTable {
    type V = TxnTableView;

    closed spec fn view(&self) -> TxnTableView {
        TxnTableView { infos: self.infos@, success: self.counter.success, pmem: self.pmem }
    }
}

impl TxnTable {
    pub fn new(pmem: bool) -> (table: TxnTable)
        ensures
            table@ == (TxnTableView { infos: Seq::empty(), success: 0, pmem }),
    {
        TxnTable { infos: Vec::new(), counter: BenchmarkCounter::new(), pmem }
    }

    /// Enters a transaction that has made no progress yet.
    pub(crate) fn enter(&mut self, tid: Tid) -> (r: TxnRef)
        ensures
            r.0 == old(self)@.infos.len(),
            final(self)@ == (TxnTableView {
                infos: old(self)@.infos.push(
                    TxnInfo { tid, committed: false, persisted: false, rank: 0 },
                ),
                ..old(self)@
            }),
    {
        let r = TxnRef(self.infos.len());
        self.infos.push(TxnInfo::new(tid));
        r
    }

    pub fn info(&self, r: TxnRef) -> (info: &TxnInfo)
        requires
            self@.valid(r),
        ensures
            *info == self@.at(r),
    {
        &self.infos[r.0]
    }

    pub fn pmem(&self) -> (b: bool)
        ensures
            b == self@.pmem,
    {
        self.pmem
    }

    /// Number of commits so far, modulo two to the sixty-fourth.
    pub fn success_count(&self) -> (n: u64)
        ensures
            n == self@.success,
    {
        self.counter.success
    }

    /// Marks a transaction committed and counts the commit.
    pub(crate) fn commit(&mut self, r: TxnRef)
        requires
            old(self)@.valid(r),
        ensures
            final(self)@ == (TxnTableView {
                success: BenchmarkCounter::next(old(self)@.success),
                ..old(self)@.with(r, TxnInfo { committed: true, ..old(self)@.at(r) })
            }),
    {
        self.infos[r.0].commit();
        self.counter.success();
    }

    /// Marks a transaction persistent.
    pub(crate) fn persist(&mut self, r: TxnRef)
        requires
            old(self)@.valid(r),
        ensures
            final(self)@ == old(self)@.with(r, TxnInfo { persisted: true, ..old(self)@.at(r) }),
    {
        self.infos[r.0].persist();
    }

    /// Records how far a transaction has got.
    pub(crate) fn done(&mut self, r: TxnRef, rank: usize)
        requires
            old(self)@.valid(r),
        ensures
            final(self)@ == old(self)@.with(r, TxnInfo { rank, ..old(self)@.at(r) }),
    {
        self.infos[r.0].done(rank);
    }
}

} // verus!
