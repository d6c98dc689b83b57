//! The transaction itself: its pieces, its dependencies on other transactions,
//! and the order in which it waits, runs, commits and persists.

use std::collections::HashMap;
use vstd::prelude::*;

use crate::piece::Piece;
use crate::plog::{DataRecord, Layout, PLog};
use crate::txn::{Tid, TxState, TxnInfo, TxnRef, TxnTable, TxnTableView};

verus! {

broadcast use vstd::std_specs::hash::group_hash_axioms;

const DEP_DEFAULT_SIZE: usize = 128;

/// What follows a commit once it is over.
#[derive(Clone, Copy, PartialEq, Eq, Structural, Debug)]
pub enum Then {
    /// The execution goes on with the next piece.
    NextPiece,
    /// The execution is over.
    Finish,
    /// The call that asked for the commit returns.
    Return,
}

/// Where a transaction stands between two steps.
#[derive(Clone, Copy, PartialEq, Eq, Structural, Debug)]
pub enum Phase {
    /// Nothing is under way.
    Idle,
    /// The next piece is to be chosen.
    Fetch,
    /// A piece is chosen and waits for the dependencies.
    Start,
    /// A piece is running: the chosen one of an execution, or one that runs alone.
    Running { alone: bool },
    /// A commit waits for the dependencies to persist.
    PersistWait { then: Then },
    /// The commit record is being written.
    Persisting { then: Then },
    /// All pieces have run, and the dependencies have yet to commit.
    CommitWait,
}

/// What the driver of a transaction does before it takes the next step.
pub enum TxnAction {
    /// Nothing yet: a dependency is not ready.
    Wait,
    /// Run the work of this piece.
    Run(Piece),
    /// Drain the memory's write buffers and log that this transaction committed.
    PersistTxn(u32),
    /// Flush these ranges.
    Flush(Vec<DataRecord>),
    /// Nothing: what was asked for is over.
    Done,
}

/// A [`TxnAction`] as a value.
#[verifier::ext_equal]
pub enum ActionView {
    Wait,
    Run(Piece),
    PersistTxn(u32),
    Flush(Seq<DataRecord>),
    Done,
}

impl View for TxnAction {
    type V = ActionView;

    open spec fn view(&self) -> ActionView {
        match *self {
            TxnAction::Wait => ActionView::Wait,
            TxnAction::Run(p) => ActionView::Run(p),
            TxnAction::PersistTxn(id) => ActionView::PersistTxn(id),
            TxnAction::Flush(records) => ActionView::Flush(records@),
            TxnAction::Done => ActionView::Done,
        }
    }
}

/// The outcome of one step.
#[verifier::ext_equal]
pub struct Step {
    pub txn: TxnView,
    pub txns: TxnTableView,
    pub action: ActionView,
}

/// What a [`TransactionPar`] holds.
#[verifier::ext_equal]
pub struct TxnView {
    pub id: Tid,
    pub name: Seq<char>,
    pub status: TxState,
    pub info: TxnRef,
    pub pieces: Seq<Piece>,
    pub wait: Option<Piece>,
    pub starting: Option<Piece>,
    pub deps: Map<u32, TxnRef>,
    pub records: Seq<DataRecord>,
    pub phase: Phase,
    pub callers: Seq<Phase>,
}

/// The records that have an address, in order.
pub open spec fn addressed(records: Seq<DataRecord>) -> Seq<DataRecord> {
    records.filter(|r: DataRecord| r.ptr is Some)
}

impl TxnView {
    /// A transaction that has not begun.
    pub open spec fn fresh(pieces: Seq<Piece>, id: Tid, name: Seq<char>, info: TxnRef) -> TxnView {
        TxnView {
            id,
            name,
            status: TxState::EMBRYO,
            info,
            pieces,
            wait: None,
            starting: None,
            deps: Map::empty(),
            records: Seq::empty(),
            phase: Phase::Idle,
            callers: Seq::empty(),
        }
    }

    /// The transaction refers into `txns` only.
    pub open spec fn linked(self, txns: TxnTableView) -> bool {
        &&& txns.valid(self.info)
        &&& forall|k: u32| #[trigger] self.deps.contains_key(k) ==> txns.valid(self.deps[k])
    }

    /// No step is due: the transaction is at the disposal of its owner or of the work
    /// of a running piece.
    pub open spec fn at_rest(self) -> bool {
        self.phase is Idle || self.phase is Running
    }

    /// What is under way is a commit or a piece that was asked for by itself, and not
    /// an execution.
    pub open spec fn in_call(self) -> bool {
        ||| self.phase == Phase::Running { alone: true }
        ||| self.phase == Phase::PersistWait { then: Then::Return }
        ||| self.phase == Phase::Persisting { then: Then::Return }
    }

    /// The transaction refers into `txns` only; it keeps a chosen piece exactly while
    /// that piece waits; its commit record is being written only if the dependencies
    /// have persisted; and it remembers running pieces only while something that their
    /// work has asked for is under way.
    pub open spec fn wf(self, txns: TxnTableView) -> bool {
        &&& self.linked(txns)
        &&& self.phase == Phase::Start <==> self.starting is Some
        &&& self.phase is Persisting ==> self.may_persist(txns)
        &&& self.callers.len() > 0 ==> !(self.phase is Idle)
        &&& forall|i: int|
            0 <= i < self.callers.len() ==> (#[trigger] self.callers[i]) is Running
    }

    /// The transaction at the beginning of a call; if a piece's work makes the call,
    /// the piece is remembered.
    pub open spec fn called(self) -> TxnView {
        if self.phase is Running {
            TxnView { callers: self.callers.push(self.phase), ..self }
        } else {
            self
        }
    }

    /// The transaction at the end of a call or an execution: the piece whose work made
    /// the call, if any, is running again.
    pub open spec fn returned(self) -> TxnView {
        if self.callers.len() > 0 {
            TxnView { phase: self.callers.last(), callers: self.callers.drop_last(), ..self }
        } else {
            TxnView { phase: Phase::Idle, ..self }
        }
    }

    /// Every dependency has committed, or has got as far as this transaction.
    pub open spec fn may_start(self, txns: TxnTableView) -> bool {
        forall|k: u32| #[trigger]
            self.deps.contains_key(k) ==> txns.at(self.deps[k]).lets_start(txns.at(self.info).rank)
    }

    /// Every dependency has committed.
    pub open spec fn may_commit(self, txns: TxnTableView) -> bool {
        forall|k: u32| #[trigger] self.deps.contains_key(k) ==> txns.at(self.deps[k]).committed
    }

    /// Every dependency has persisted.
    pub open spec fn may_persist(self, txns: TxnTableView) -> bool {
        forall|k: u32| #[trigger] self.deps.contains_key(k) ==> txns.at(self.deps[k]).persisted
    }

    /// The piece that comes next: the waiting one, else the last of the list.
    pub open spec fn next_piece(self) -> Option<Piece> {
        if self.wait is Some {
            self.wait
        } else if self.pieces.len() > 0 {
            Some(self.pieces.last())
        } else {
            None
        }
    }

    /// The transaction without the piece that comes next.
    pub open spec fn without_next(self) -> TxnView {
        if self.wait is Some {
            TxnView { wait: None, ..self }
        } else if self.pieces.len() > 0 {
            TxnView { pieces: self.pieces.drop_last(), ..self }
        } else {
            self
        }
    }

    pub open spec fn with_dep(self, tid: u32, info: TxnRef) -> TxnView {
        if self.deps.contains_key(tid) {
            self
        } else {
            TxnView { deps: self.deps.insert(tid, info), ..self }
        }
    }

    pub open spec fn committed(self) -> TxnView {
        TxnView { status: TxState::COMMITTED, ..self }
    }

    pub open spec fn persisted(self) -> TxnView {
        TxnView { status: TxState::PERSIST, ..self }
    }

    /// The table once this transaction has committed.
    pub open spec fn table_committed(self, txns: TxnTableView) -> TxnTableView {
        TxnTableView {
            success: crate::tcore::BenchmarkCounter::next(txns.success),
            ..txns.with(self.info, TxnInfo { committed: true, ..txns.at(self.info) })
        }
    }

    /// The table once this transaction has persisted.
    pub open spec fn table_persisted(self, txns: TxnTableView) -> TxnTableView {
        txns.with(self.info, TxnInfo { persisted: true, ..txns.at(self.info) })
    }

    /// The transaction at the beginning of an execution, which the work of a running
    /// piece may ask for too.
    pub open spec fn begun(self) -> TxnView {
        TxnView { status: TxState::ACTIVE, phase: Phase::Fetch, ..self.called() }
    }

    /// `piece` runs if the dependencies allow it, and is kept otherwise.
    pub open spec fn start_step(self, piece: Piece, txns: TxnTableView) -> Step {
        if self.may_start(txns) {
            Step {
                txn: TxnView { phase: Phase::Running { alone: false }, starting: None, ..self },
                txns,
                action: ActionView::Run(piece),
            }
        } else {
            Step {
                txn: TxnView { phase: Phase::Start, starting: Some(piece), ..self },
                txns,
                action: ActionView::Wait,
            }
        }
    }

    /// `piece` runs by itself, and a commit follows.
    pub open spec fn piece_step(self, piece: Piece, txns: TxnTableView) -> Step {
        Step {
            txn: TxnView { phase: Phase::Running { alone: true }, ..self.called() },
            txns,
            action: ActionView::Run(piece),
        }
    }

    /// The commit record is written if the dependencies have persisted.
    pub open spec fn persist_step(self, then: Then, txns: TxnTableView) -> Step {
        if self.may_persist(txns) {
            Step {
                txn: TxnView { phase: Phase::Persisting { then }, ..self },
                txns,
                action: ActionView::PersistTxn(self.id.0),
            }
        } else {
            Step {
                txn: TxnView { phase: Phase::PersistWait { then }, ..self },
                txns,
                action: ActionView::Wait,
            }
        }
    }

    /// The transaction commits; where the memory is persistent, the commit record
    /// comes next, and otherwise nothing is left to do.
    pub open spec fn commit_step(self, then: Then, txns: TxnTableView) -> Step {
        if txns.pmem {
            self.committed().persist_step(then, self.table_committed(txns))
        } else {
            Step {
                txn: self.committed().returned(),
                txns: self.table_committed(txns),
                action: ActionView::Done,
            }
        }
    }

    /// The commit record has been written.
    pub open spec fn persisted_step(self, then: Then, txns: TxnTableView) -> Step {
        if then == Then::NextPiece {
            Step {
                txn: TxnView { phase: Phase::Fetch, records: Seq::empty(), ..self.persisted() },
                txns: self.table_persisted(txns),
                action: ActionView::Flush(addressed(self.records)),
            }
        } else {
            Step {
                txn: self.persisted().returned(),
                txns: self.table_persisted(txns),
                action: ActionView::Done,
            }
        }
    }

    /// The whole transaction commits if the dependencies have.
    pub open spec fn finish_step(self, txns: TxnTableView) -> Step {
        if self.may_commit(txns) {
            self.commit_step(Then::Finish, txns)
        } else {
            Step {
                txn: TxnView { phase: Phase::CommitWait, ..self },
                txns,
                action: ActionView::Wait,
            }
        }
    }

    /// The next piece is taken up, or the transaction ends.
    pub open spec fn fetch_step(self, txns: TxnTableView) -> Step {
        match self.next_piece() {
            Some(piece) => self.without_next().start_step(piece, txns),
            None => self.finish_step(txns),
        }
    }

    /// The next step of what is under way.
    pub open spec fn next_step(self, txns: TxnTableView) -> Step {
        match self.phase {
            Phase::Idle => Step { txn: self, txns, action: ActionView::Done },
            Phase::Fetch => self.fetch_step(txns),
            Phase::Start => TxnView { starting: None, ..self }.start_step(self.starting->0, txns),
            Phase::Running { alone } => if alone {
                self.commit_step(Then::Return, txns)
            } else if txns.pmem {
                self.commit_step(Then::NextPiece, txns)
            } else {
                self.committed().fetch_step(self.table_committed(txns))
            },
            Phase::PersistWait { then } => self.persist_step(then, txns),
            Phase::Persisting { then } => self.persisted_step(then, txns),
            Phase::CommitWait => self.finish_step(txns),
        }
    }
}

/// A transaction that can be made any number of times: its pieces and its name.
#[derive(Debug)]
pub struct TransactionParBase {
    all_ps: Vec<Piece>,
    name: String,
}

impl TransactionParBase {
    pub closed spec fn pieces(self) -> Seq<Piece> {
        self.all_ps@
    }

    pub closed spec fn name(self) -> Seq<char> {
        self.name@
    }

    pub fn new(all_ps: Vec<Piece>, name: String) -> (base: TransactionParBase)
        ensures
            base.pieces() == all_ps@,
            base.name() == name@,
    {
        TransactionParBase { all_ps, name }
    }
}

impl Clone for TransactionParBase {
    fn clone(&self) -> (base: TransactionParBase)
        ensures
            base.pieces() == self.pieces(),
            base.name() == self.name(),
    {
        let mut all_ps: Vec<Piece> = Vec::new();
        let mut i: usize = 0;
        while i < self.all_ps.len()
            invariant
                i <= self.all_ps@.len(),
                all_ps@ == self.all_ps@.take(i as int),
            decreases self.all_ps@.len() - i,
        {
            all_ps.push(self.all_ps[i].clone());
            i = i + 1;
            assert(self.all_ps@.take(i as int) =~= self.all_ps@.take(i - 1).push(
                self.all_ps@[i - 1],
            ));
        }
        assert(self.all_ps@.take(i as int) =~= self.all_ps@);
        TransactionParBase { all_ps, name: self.name.clone() }
    }
}

/// A transaction that runs as a sequence of pieces.
pub struct TransactionPar {
    all_ps: Vec<Piece>,
    deps: HashMap<u32, TxnRef>,
    id: Tid,
    name: String,
    status: TxState,
    info: TxnRef,
    wait: Option<Piece>,
    starting: Option<Piece>,
    records: Vec<DataRecord>,
    phase: Phase,
    callers: Vec<Phase>,
}

impl View for TransactionPar {
    type V = TxnView;

    closed spec fn view(&self) -> TxnView {
        TxnView {
            id: self.id,
            name: self.name@,
            status: self.status,
            info: self.info,
            pieces: self.all_ps@,
            wait: self.wait,
            starting: self.starting,
            deps: self.deps@,
            records: self.records@,
            phase: self.phase,
            callers: self.callers@,
        }
    }
}

impl TransactionPar {
    /// A transaction that has not begun, entered into the table.
    pub fn new(pieces: Vec<Piece>, id: Tid, name: String, txns: &mut TxnTable) -> (txn:
        TransactionPar)
        ensures
            txn@ == TxnView::fresh(pieces@, id, name@, TxnRef(old(txns)@.infos.len() as usize)),
            txn@.info.0 == old(txns)@.infos.len(),
            txn@.wf(final(txns)@),
            final(txns)@ == (TxnTableView {
                infos: old(txns)@.infos.push(
                    TxnInfo { tid: id, committed: false, persisted: false, rank: 0 },
                ),
                ..old(txns)@
            }),
    {
        let info = txns.enter(id);
        TransactionPar {
            all_ps: pieces,
            deps: HashMap::with_capacity(DEP_DEFAULT_SIZE),
            id,
            name,
            status: TxState::EMBRYO,
            info,
            wait: None,
            starting: None,
            records: Vec::new(),
            phase: Phase::Idle,
            callers: Vec::new(),
        }
    }

    /// A transaction with the pieces and the name of `txn_base`, entered into the
    /// table.
    pub fn new_from_base(txn_base: &TransactionParBase, tid: Tid, txns: &mut TxnTable) -> (txn:
        TransactionPar)
        ensures
            txn@ == TxnView::fresh(
                txn_base.pieces(),
                tid,
                txn_base.name(),
                TxnRef(old(txns)@.infos.len() as usize),
            ),
            txn@.info.0 == old(txns)@.infos.len(),
            txn@.wf(final(txns)@),
            final(txns)@ == (TxnTableView {
                infos: old(txns)@.infos.push(
                    TxnInfo { tid, committed: false, persisted: false, rank: 0 },
                ),
                ..old(txns)@
            }),
    {
        let txn_base = txn_base.clone();
        let info = txns.enter(tid);
        TransactionPar {
            all_ps: txn_base.all_ps,
            name: txn_base.name,
            id: tid,
            status: TxState::EMBRYO,
            deps: HashMap::with_capacity(DEP_DEFAULT_SIZE),
            info,
            wait: None,
            starting: None,
            records: Vec::new(),
            phase: Phase::Idle,
            callers: Vec::new(),
        }
    }

    pub fn id(&self) -> (id: &Tid)
        ensures
            *id == self@.id,
    {
        &self.id
    }

    pub fn name(&self) -> (name: &String)
        ensures
            name@ == self@.name,
    {
        &self.name
    }

    pub fn status(&self) -> (status: &TxState)
        ensures
            *status == self@.status,
    {
        &self.status
    }

    pub fn txn_info(&self) -> (info: &TxnRef)
        ensures
            *info == self@.info,
    {
        &self.info
    }

    /// How far this transaction has got.
    pub fn cur_rank(&self, txns: &TxnTable) -> (rank: usize)
        requires
            self@.linked(txns@),
        ensures
            rank == txns@.at(self@.info).rank,
    {
        txns.info(self.info).rank()
    }

    pub fn update_rank(&self, rank: usize, txns: &mut TxnTable)
        requires
            self@.linked(old(txns)@),
        ensures
            final(txns)@ == old(txns)@.with(
                self@.info,
                TxnInfo { rank, ..old(txns)@.at(self@.info) },
            ),
    {
        txns.done(self.info, rank);
    }

    /// Whether the list of pieces has any left; a waiting piece does not count.
    pub fn has_next_piece(&self) -> (b: bool)
        ensures
            b == (self@.pieces.len() > 0),
    {
        self.all_ps.len() > 0
    }

    pub fn get_next_piece(&mut self) -> (piece: Option<Piece>)
        ensures
            piece == old(self)@.next_piece(),
            final(self)@ == old(self)@.without_next(),
    {
        match self.wait.take() {
            Some(piece) => Some(piece),
            None => self.all_ps.pop(),
        }
    }

    /// Puts a piece in front of all others, in place of one put there before.
    pub fn add_wait(&mut self, p: Piece)
        ensures
            final(self)@ == (TxnView { wait: Some(p), ..old(self)@ }),
    {
        self.wait = Some(p);
    }

    /// Adds a piece that runs before those of the list.
    pub fn add_piece(&mut self, piece: Piece)
        ensures
            final(self)@ == (TxnView { pieces: old(self)@.pieces.push(piece), ..old(self)@ }),
    {
        self.all_ps.push(piece);
    }

    /// Makes this transaction depend on another; the first entry under an
    /// identifier stays.
    pub fn add_dep(&mut self, tid: u32, txn_info: TxnRef)
        ensures
            final(self)@ == old(self)@.with_dep(tid, txn_info),
    {
        if !self.deps.contains_key(&tid) {
            self.deps.insert(tid, txn_info);
        }
    }

    /// One round of the wait before a piece: whether every dependency lets it start.
    pub fn wait_deps_start(&self, txns: &TxnTable) -> (ready: bool)
        requires
            self@.linked(txns@),
        ensures
            ready == self@.may_start(txns@),
    {
        let cur_rank: usize = self.cur_rank(txns);
        for kv in it: self.deps.iter()
            invariant
                self@.linked(txns@),
                cur_rank == txns@.at(self@.info).rank,
                forall|i: int|
                    0 <= i < it.index() ==> txns@.at(*(#[trigger] it.seq()[i]).1).lets_start(
                        cur_rank,
                    ),
        {
            assert(self@.deps.contains_key(*it.seq()[it.index()].0));
            let dep = txns.info(*kv.1);
            if !dep.has_commit() && !dep.has_done(cur_rank) {
                return false;
            }
        }
        true
    }

    /// One round of the wait before the last commit: whether every dependency has
    /// committed.
    pub fn wait_deps_commit(&self, txns: &TxnTable) -> (ready: bool)
        requires
            self@.linked(txns@),
        ensures
            ready == self@.may_commit(txns@),
    {
        for kv in it: self.deps.iter()
            invariant
                self@.linked(txns@),
                forall|i: int|
                    0 <= i < it.index() ==> txns@.at(*(#[trigger] it.seq()[i]).1).committed,
        {
            assert(self@.deps.contains_key(*it.seq()[it.index()].0));
            if !txns.info(*kv.1).has_commit() {
                return false;
            }
        }
        true
    }

    /// One round of the wait before a commit record is written: whether every
    /// dependency has persisted.
    pub fn wait_deps_persist(&self, txns: &TxnTable) -> (ready: bool)
        requires
            self@.linked(txns@),
        ensures
            ready == self@.may_persist(txns@),
    {
        for kv in it: self.deps.iter()
            invariant
                self@.linked(txns@),
                forall|i: int|
                    0 <= i < it.index() ==> txns@.at(*(#[trigger] it.seq()[i]).1).persisted,
        {
            assert(self@.deps.contains_key(*it.seq()[it.index()].0));
            if !txns.info(*kv.1).has_persist() {
                return false;
            }
        }
        true
    }

    /// Commits: other transactions see it from now on. Where the memory is persistent,
    /// the commit is over only when every dependency has persisted and the commit
    /// record is written: the caller performs the action and takes further steps with
    /// [`step_txn`](Self::step_txn), until the action is [`TxnAction::Done`].
    /// The work of a running piece may commit too; the piece is running again
    /// afterwards.
    pub fn commit(&mut self, txns: &mut TxnTable) -> (action: TxnAction)
        requires
            old(self)@.wf(old(txns)@),
            old(self)@.at_rest(),
        ensures
            (Step { txn: final(self)@, txns: final(txns)@, action: action@ }) == old(
                self,
            )@.called().commit_step(Then::Return, old(txns)@),
            final(self)@.wf(final(txns)@),
    {
        self.call();
        self.commit_then(Then::Return, txns)
    }

    /// Runs a piece by itself and then commits: the caller runs the piece's work and
    /// takes further steps with [`step_txn`](Self::step_txn), until the action is
    /// [`TxnAction::Done`].
    pub fn execute_piece(&mut self, piece: Piece, txns: &TxnTable) -> (action: TxnAction)
        requires
            old(self)@.wf(txns@),
            old(self)@.at_rest(),
        ensures
            (Step { txn: final(self)@, txns: txns@, action: action@ }) == old(self)@.piece_step(
                piece,
                txns@,
            ),
            final(self)@.wf(txns@),
    {
        self.call();
        self.phase = Phase::Running { alone: true };
        TxnAction::Run(piece)
    }

    /// Remembers the running piece whose work makes a call.
    fn call(&mut self)
        ensures
            final(self)@ == old(self)@.called(),
    {
        if let Phase::Running { alone } = self.phase {
            self.callers.push(Phase::Running { alone });
        }
    }

    /// Ends a call or an execution.
    fn give_back(&mut self)
        ensures
            final(self)@ == old(self)@.returned(),
    {
        match self.callers.pop() {
            Some(phase) => {
                self.phase = phase;
            },
            None => {
                self.phase = Phase::Idle;
            },
        }
    }

    /// Commits, and has the commit record written where the memory is persistent.
    fn commit_then(&mut self, then: Then, txns: &mut TxnTable) -> (action: TxnAction)
        requires
            old(self)@.linked(old(txns)@),
        ensures
            (Step { txn: final(self)@, txns: final(txns)@, action: action@ }) == old(
                self,
            )@.commit_step(then, old(txns)@),
    {
        self.mark_committed(txns);
        if txns.pmem() {
            self.settle(then, txns)
        } else {
            self.give_back();
            TxnAction::Done
        }
    }

    fn mark_committed(&mut self, txns: &mut TxnTable)
        requires
            old(self)@.linked(old(txns)@),
        ensures
            final(self)@ == old(self)@.committed(),
            final(txns)@ == old(self)@.table_committed(old(txns)@),
    {
        txns.commit(self.info);
        self.status = TxState::COMMITTED;
    }

    /// Remembers a range of memory that the transaction changes.
    pub fn add_record(&mut self, ptr: Option<usize>, layout: Layout)
        ensures
            final(self)@ == (TxnView {
                records: old(self)@.records.push(DataRecord { ptr, layout }),
                ..old(self)@
            }),
    {
        self.records.push(DataRecord { ptr, layout });
    }

    /// The log entries of the given records.
    fn persist_log(&self, records: &Vec<DataRecord>) -> (logs: Vec<PLog>)
        ensures
            logs@ == records@.map_values(|r: DataRecord| r.log(self@.id)),
    {
        let id = self.id;
        let mut logs: Vec<PLog> = Vec::new();
        let mut i: usize = 0;
        while i < records.len()
            invariant
                i <= records@.len(),
                id == self@.id,
                logs@.len() == i,
                forall|j: int| 0 <= j < i ==> logs@[j] == (#[trigger] records@[j]).log(id),
            decreases records@.len() - i,
        {
            logs.push(records[i].as_log(id));
            i = i + 1;
        }
        assert(logs@ =~= records@.map_values(|r: DataRecord| r.log(self@.id)));
        logs
    }

    /// The log entries of the records so far, to be written before the ranges change.
    pub fn persist_logs(&self) -> (logs: Vec<PLog>)
        ensures
            logs@ == self@.records.map_values(|r: DataRecord| r.log(self@.id)),
    {
        self.persist_log(&self.records)
    }

    /// Forgets the records and returns those to be flushed: the ones with an address.
    pub fn persist_data(&mut self) -> (flush: Vec<DataRecord>)
        ensures
            flush@ == addressed(old(self)@.records),
            final(self)@ == (TxnView { records: Seq::empty(), ..old(self)@ }),
    {
        let mut flush: Vec<DataRecord> = Vec::new();
        let mut i: usize = 0;
        assert(flush@ == addressed(self.records@.take(0))) by {
            reveal(Seq::filter);
        }
        while i < self.records.len()
            invariant
                self@ == old(self)@,
                i <= self.records@.len(),
                flush@ == addressed(self.records@.take(i as int)),
            decreases self.records@.len() - i,
        {
            proof {
                assert(self.records@.take(i + 1).drop_last() =~= self.records@.take(i as int));
                reveal(Seq::filter);
            }
            let record = self.records[i];
            if record.ptr.is_some() {
                flush.push(record);
            }
            i = i + 1;
        }
        assert(self.records@.take(i as int) =~= self.records@);
        self.records = Vec::new();
        flush
    }

    /// Accounts for a commit record that has just been written.
    fn persist_txn(&mut self, txns: &mut TxnTable)
        requires
            old(self)@.linked(old(txns)@),
            old(self)@.may_persist(old(txns)@),
        ensures
            final(self)@ == old(self)@.persisted(),
            final(txns)@ == old(self)@.table_persisted(old(txns)@),
    {
        txns.persist(self.info);
        self.status = TxState::PERSIST;
    }

    /// Runs `piece` if the dependencies allow it, and keeps it otherwise.
    fn start(&mut self, piece: Piece, txns: &TxnTable) -> (action: TxnAction)
        requires
            old(self)@.linked(txns@),
        ensures
            (Step { txn: final(self)@, txns: txns@, action: action@ }) == old(self)@.start_step(
                piece,
                txns@,
            ),
    {
        if self.wait_deps_start(txns) {
            self.phase = Phase::Running { alone: false };
            self.starting = None;
            TxnAction::Run(piece)
        } else {
            self.phase = Phase::Start;
            self.starting = Some(piece);
            TxnAction::Wait
        }
    }

    /// Has the commit record written if the dependencies have persisted.
    fn settle(&mut self, then: Then, txns: &TxnTable) -> (action: TxnAction)
        requires
            old(self)@.linked(txns@),
        ensures
            (Step { txn: final(self)@, txns: txns@, action: action@ }) == old(self)@.persist_step(
                then,
                txns@,
            ),
    {
        if self.wait_deps_persist(txns) {
            self.phase = Phase::Persisting { then };
            TxnAction::PersistTxn(self.id.raw())
        } else {
            self.phase = Phase::PersistWait { then };
            TxnAction::Wait
        }
    }

    /// Commits the whole transaction if the dependencies have committed.
    fn finish(&mut self, txns: &mut TxnTable) -> (action: TxnAction)
        requires
            old(self)@.linked(old(txns)@),
        ensures
            (Step { txn: final(self)@, txns: final(txns)@, action: action@ }) == old(
                self,
            )@.finish_step(old(txns)@),
    {
        if self.wait_deps_commit(txns) {
            self.commit_then(Then::Finish, txns)
        } else {
            self.phase = Phase::CommitWait;
            TxnAction::Wait
        }
    }

    /// Takes up the next piece, or ends the transaction.
    fn fetch(&mut self, txns: &mut TxnTable) -> (action: TxnAction)
        requires
            old(self)@.linked(old(txns)@),
        ensures
            (Step { txn: final(self)@, txns: final(txns)@, action: action@ }) == old(
                self,
            )@.fetch_step(old(txns)@),
    {
        match self.get_next_piece() {
            Some(piece) => self.start(piece, txns),
            None => self.finish(txns),
        }
    }

    /// Begins an execution: piece by piece the transaction waits for its dependencies,
    /// runs, commits and persists, and at the end it waits for the dependencies to
    /// commit and commits itself. The caller performs the action and takes further
    /// steps with [`step_txn`](Self::step_txn), until the action is
    /// [`TxnAction::Done`]. The work of a running piece may execute the transaction
    /// too; the piece is running again afterwards.
    pub fn execute_txn(&mut self, txns: &mut TxnTable) -> (action: TxnAction)
        requires
            old(self)@.wf(old(txns)@),
            old(self)@.at_rest(),
        ensures
            (Step { txn: final(self)@, txns: final(txns)@, action: action@ }) == old(
                self,
            )@.begun().next_step(old(txns)@),
            final(self)@.wf(final(txns)@),
    {
        self.call();
        self.status = TxState::ACTIVE;
        self.phase = Phase::Fetch;
        self.fetch(txns)
    }

    /// Takes the next step of what is under way, once the last action has been
    /// performed. For a running piece that is the end of its work.
    pub fn step_txn(&mut self, txns: &mut TxnTable) -> (action: TxnAction)
        requires
            old(self)@.wf(old(txns)@),
            !(old(self)@.phase is Idle),
        ensures
            (Step { txn: final(self)@, txns: final(txns)@, action: action@ }) == old(
                self,
            )@.next_step(old(txns)@),
            final(self)@.wf(final(txns)@),
    {
        match self.phase {
            Phase::Idle => TxnAction::Done,
            Phase::Fetch => self.fetch(txns),
            Phase::Start => match self.starting.take() {
                Some(piece) => self.start(piece, txns),
                None => {
                    assert(false);
                    TxnAction::Wait
                },
            },
            Phase::Running { alone } => if alone {
                self.commit_then(Then::Return, txns)
            } else if txns.pmem() {
                self.commit_then(Then::NextPiece, txns)
            } else {
                self.mark_committed(txns);
                self.fetch(txns)
            },
            Phase::PersistWait { then } => self.settle(then, txns),
            Phase::Persisting { then } => {
                self.persist_txn(txns);
                if then == Then::NextPiece {
                    self.phase = Phase::Fetch;
                    TxnAction::Flush(self.persist_data())
                } else {
                    self.give_back();
                    TxnAction::Done
                }
            },
            Phase::CommitWait => self.finish(txns),
        }
    }

    /// The current transaction of a thread, to be read or changed in place.
    pub fn get_thread_txn(cur: &mut ThreadTxn) -> (txn: &mut TransactionPar)
        ensures
            *txn == old(cur).txn,
            final(cur).txn == *final(txn),
    {
        &mut cur.txn
    }

    /// Makes `tx` the current transaction of a thread.
    pub fn set_thread_txn(cur: &mut ThreadTxn, tx: TransactionPar)
        ensures
            final(cur).txn == tx,
    {
        cur.txn = tx;
    }

    /// Makes `tx` the current transaction of a thread.
    pub fn register(cur: &mut ThreadTxn, tx: TransactionPar)
        ensures
            final(cur).txn == tx,
    {
        Self::set_thread_txn(cur, tx);
    }

    /// Begins an execution of a thread's current transaction.
    pub fn execute(cur: &mut ThreadTxn, txns: &mut TxnTable) -> (action: TxnAction)
        requires
            old(cur).txn@.wf(old(txns)@),
            old(cur).txn@.at_rest(),
        ensures
            (Step { txn: final(cur).txn@, txns: final(txns)@, action: action@ }) == old(
                cur,
            ).txn@.begun().next_step(old(txns)@),
            final(cur).txn@.wf(final(txns)@),
    {
        cur.txn.execute_txn(txns)
    }
}

/// The slot in which a thread keeps its current transaction.
pub struct ThreadTxn {
    pub txn: TransactionPar,
}

impl ThreadTxn {
    /// A slot with a nameless transaction that has no pieces.
    pub fn new(txns: &mut TxnTable) -> (cur: ThreadTxn)
        ensures
            cur.txn@ == TxnView::fresh(
                Seq::empty(),
                Tid(0),
                Seq::empty(),
                TxnRef(old(txns)@.infos.len() as usize),
            ),
            cur.txn@.wf(final(txns)@),
            final(txns)@ == (TxnTableView {
                infos: old(txns)@.infos.push(
                    TxnInfo { tid: Tid(0), committed: false, persisted: false, rank: 0 },
                ),
                ..old(txns)@
            }),
    {
        ThreadTxn { txn: TransactionPar::new(Vec::new(), Tid::default(), String::new(), txns) }
    }
}

/// The name of a transaction.
#[derive(Hash, Eq, PartialEq, Clone, Debug)]
pub struct TxnName {
    name: String,
}

} // verus!
