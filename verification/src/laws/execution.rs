//! Laws of the execution of a transaction: the order of its pieces, what it waits
//! for, and that it ends.

use vstd::prelude::*;

use crate::parnvm::nvm_txn::{ActionView, Phase, Then, TxnView};
use crate::piece::Piece;
use crate::txn::{TxState, TxnRef, TxnTableView};

verus! {

/// The pieces that a transaction has yet to run, the next one first.
pub open spec fn queue(txn: TxnView) -> Seq<Piece> {
    let starting = match txn.starting {
        Some(piece) => seq![piece],
        None => seq![],
    };
    let wait = match txn.wait {
        Some(piece) => seq![piece],
        None => seq![],
    };
    starting + wait + txn.pieces.reverse()
}

/// What other transactions can do to the table while this one does nothing: enter,
/// commit, persist and get on.
pub open spec fn table_grows(before: TxnTableView, after: TxnTableView) -> bool {
    &&& before.infos.len() <= after.infos.len()
    &&& before.pmem == after.pmem
    &&& forall|i: int|
        0 <= i < before.infos.len() ==> {
            &&& (#[trigger] after.infos[i]).tid == before.infos[i].tid
            &&& before.infos[i].committed ==> after.infos[i].committed
            &&& before.infos[i].persisted ==> after.infos[i].persisted
        }
}

/// What is true of a transaction between two steps, as long as nobody but the work of
/// a running piece changes its pieces and dependencies.
pub open spec fn in_order(txn: TxnView, txns: TxnTableView) -> bool {
    let last = txn.phase == Phase::PersistWait { then: Then::Finish } || txn.phase
        == Phase::Persisting { then: Then::Finish };
    &&& txn.wf(txns)
    &&& txn.phase is PersistWait || txn.phase is Persisting ==> txns.at(txn.info).committed
    &&& last ==> forall|k: u32| #[trigger]
        txn.deps.contains_key(k) ==> txns.infos[txn.deps[k].0 as int].committed
    &&& last || txn.phase is CommitWait ==> queue(txn).len() == 0
}

/// A bound on the actions that an execution has yet to ask for.
pub open spec fn actions_left(txn: TxnView) -> int {
    3 * queue(txn).len() + match txn.phase {
        Phase::Running { alone: false } => 4int,
        Phase::PersistWait { then: Then::NextPiece } => 4int,
        Phase::Persisting { then: Then::NextPiece } => 3int,
        Phase::Persisting { then: _ } => 1int,
        _ => 2int,
    }
}

/// The commits that an execution has yet to make: one for each piece and one for the
/// whole.
pub open spec fn commits_left(txn: TxnView) -> int {
    queue(txn).len() + match txn.phase {
        Phase::Running { alone: false } => 2int,
        Phase::PersistWait { then: Then::Finish } => 0int,
        Phase::Persisting { then: Then::Finish } => 0int,
        _ => 1int,
    }
}

/// `after` is `before` once the work of a running piece is done: the work may have
/// committed, added or taken pieces, and added dependencies and records.
pub open spec fn worked_on(before: TxnView, after: TxnView) -> bool {
    after == (TxnView {
        status: after.status,
        pieces: after.pieces,
        wait: after.wait,
        deps: after.deps,
        records: after.records,
        ..before
    })
}

/// `txns[i]` takes a step on `tables[i]` that is not the last, the piece that it has
/// run does its work, and others change the table.
pub open spec fn run_step(txns: Seq<TxnView>, tables: Seq<TxnTableView>, i: int) -> bool {
    let step = txns[i].next_step(tables[i]);
    &&& !(step.action is Done)
    &&& table_grows(step.txns, tables[i + 1])
    &&& if step.action is Run {
        worked_on(step.txn, txns[i + 1]) && txns[i + 1].linked(tables[i + 1])
    } else {
        txns[i + 1] == step.txn
    }
}

/// What is under way over time, one step after the other.
pub open spec fn is_run(txns: Seq<TxnView>, tables: Seq<TxnTableView>) -> bool {
    &&& txns.len() == tables.len()
    &&& txns.len() > 0
    &&& forall|i: int| 0 <= i < txns.len() - 1 ==> #[trigger] run_step(txns, tables, i)
}

/// The work of the piece that step `i` has run, if any, leaves the pieces alone.
pub open spec fn leaves_pieces(txns: Seq<TxnView>, tables: Seq<TxnTableView>, i: int) -> bool {
    let step = txns[i].next_step(tables[i]);
    txns[i + 1].pieces == step.txn.pieces && txns[i + 1].wait == step.txn.wait
}

/// Nobody commits between step `i` and the next.
pub open spec fn no_other_commit(
    txns: Seq<TxnView>,
    tables: Seq<TxnTableView>,
    i: int,
) -> bool {
    tables[i + 1].success == txns[i].next_step(tables[i]).txns.success
}

/// The pieces that the first `n` steps of an execution have run.
pub open spec fn pieces_run(txns: Seq<TxnView>, tables: Seq<TxnTableView>, n: nat) -> Seq<Piece>
    decreases n,
{
    if n == 0 {
        seq![]
    } else {
        let before = pieces_run(txns, tables, (n - 1) as nat);
        match txns[n - 1].next_step(tables[n - 1]).action {
            ActionView::Run(piece) => before.push(piece),
            _ => before,
        }
    }
}

pub(crate) proof fn lemma_take_next(txn: TxnView)
    requires
        txn.starting is None,
    ensures
        match txn.next_piece() {
            Some(piece) => queue(txn) == seq![piece] + queue(txn.without_next()),
            None => queue(txn).len() == 0,
        },
{
    let wait = match txn.wait {
        Some(piece) => seq![piece],
        None => seq![],
    };
    assert(queue(txn) =~= wait + txn.pieces.reverse());
    if txn.wait is Some {
        assert(queue(txn.without_next()) =~= txn.pieces.reverse());
    } else if txn.pieces.len() > 0 {
        assert(queue(txn.without_next()) =~= txn.pieces.drop_last().reverse());
        assert(queue(txn) =~= seq![txn.pieces.last()] + txn.pieces.drop_last().reverse());
    }
}

/// The pieces run one after the other, each exactly once, in the order of the queue:
/// a step either has the first piece of the queue run and takes it off, or leaves
/// the queue alone.
pub proof fn law_pieces_run_in_order(txn: TxnView, txns: TxnTableView)
    requires
        txn.wf(txns),
    ensures
        match txn.next_step(txns).action {
            ActionView::Run(piece) => queue(txn) == seq![piece] + queue(
                txn.next_step(txns).txn,
            ),
            _ => queue(txn.next_step(txns).txn) == queue(txn),
        },
{
}

/// A step keeps an execution in order.
pub proof fn law_steps_keep_order(txn: TxnView, txns: TxnTableView)
    requires
        in_order(txn, txns),
    ensures
        in_order(txn.next_step(txns).txn, txn.next_step(txns).txns),
{
    let step = txn.next_step(txns);
    law_steps_leave_others_alone(txn, txns);
    law_readiness_is_kept(txn, txns, step.txns);
    law_pieces_run_in_order(txn, txns);
    if txn.starting is None {
        lemma_take_next(txn);
    }
}

/// Other transactions do not bring an execution out of order.
pub proof fn law_others_keep_order(txn: TxnView, txns: TxnTableView, later: TxnTableView)
    requires
        in_order(txn, txns),
        table_grows(txns, later),
    ensures
        in_order(txn, later),
{
}

pub(crate) proof fn lemma_run(txns: Seq<TxnView>, tables: Seq<TxnTableView>, n: nat)
    requires
        is_run(txns, tables),
        in_order(txns[0], tables[0]),
        !txns[0].in_call(),
        !(txns[0].phase is Idle),
        n < txns.len(),
    ensures
        in_order(txns[n as int], tables[n as int]),
        !txns[n as int].in_call(),
        !(txns[n as int].phase is Idle),
        txns[n as int].callers == txns[0].callers,
    decreases n,
{
    if n > 0 {
        lemma_run(txns, tables, (n - 1) as nat);
        let (txn, table) = (txns[n - 1], tables[n - 1]);
        let step = txn.next_step(table);
        assert(run_step(txns, tables, n - 1));
        law_steps_keep_order(txn, table);
        law_others_keep_order(step.txn, step.txns, tables[n as int]);
    }
}

proof fn lemma_run_queue(txns: Seq<TxnView>, tables: Seq<TxnTableView>, n: nat)
    requires
        is_run(txns, tables),
        in_order(txns[0], tables[0]),
        !txns[0].in_call(),
        !(txns[0].phase is Idle),
        forall|i: int| 0 <= i < txns.len() - 1 ==> #[trigger] leaves_pieces(txns, tables, i),
        n < txns.len(),
    ensures
        queue(txns[0]) == pieces_run(txns, tables, n) + queue(txns[n as int]),
    decreases n,
{
    if n > 0 {
        lemma_run(txns, tables, (n - 1) as nat);
        lemma_run_queue(txns, tables, (n - 1) as nat);
        let (txn, table) = (txns[n - 1], tables[n - 1]);
        let step = txn.next_step(table);
        assert(run_step(txns, tables, n - 1));
        assert(leaves_pieces(txns, tables, n - 1));
        law_pieces_run_in_order(txn, table);
        assert(queue(txns[n as int]) == queue(step.txn));
        if let ActionView::Run(piece) = step.action {
            let before = pieces_run(txns, tables, (n - 1) as nat);
            assert(before + (seq![piece] + queue(step.txn)) =~= before.push(piece) + queue(
                step.txn,
            ));
        }
    } else {
        assert(queue(txns[0]) =~= pieces_run(txns, tables, 0) + queue(txns[0]));
    }
}

/// An execution stays in order whatever others do meanwhile and whatever the pieces'
/// work does to the pieces, the dependencies and the records; and it is over only
/// when no piece is left.
pub proof fn law_execution_stays_in_order(
    txn: TxnView,
    txns: Seq<TxnView>,
    tables: Seq<TxnTableView>,
)
    requires
        in_order(txn, tables[0]),
        txn.at_rest(),
        is_run(txns, tables),
        txns[0] == txn.begun(),
    ensures
        in_order(txns.last(), tables.last()),
        txns.last().next_step(tables.last()).action is Done ==> {
            let end = txns.last().next_step(tables.last()).txn;
            &&& queue(end).len() == 0
            &&& end.phase == txn.phase
            &&& end.callers == txn.callers
        },
{
    law_calls_keep_order(txn, arbitrary(), tables[0]);
    lemma_run(txns, tables, (txns.len() - 1) as nat);
    if txns.last().next_step(tables.last()).action is Done {
        law_done_comes_last(txns.last(), tables.last());
        assert(txn.phase is Running ==> txn.callers.push(txn.phase).drop_last() =~= txn.callers);
    }
}

/// If the pieces' work leaves the pieces alone, an execution that is over has run the
/// pieces that were there at its beginning, each once and in order.
pub proof fn law_execution_runs_every_piece(
    txn: TxnView,
    txns: Seq<TxnView>,
    tables: Seq<TxnTableView>,
)
    requires
        in_order(txn, tables[0]),
        txn.at_rest(),
        is_run(txns, tables),
        txns[0] == txn.begun(),
        forall|i: int| 0 <= i < txns.len() - 1 ==> #[trigger] leaves_pieces(txns, tables, i),
        txns.last().next_step(tables.last()).action is Done,
    ensures
        pieces_run(txns, tables, txns.len()) == queue(txn),
{
    let n = (txns.len() - 1) as nat;
    law_calls_keep_order(txn, arbitrary(), tables[0]);
    lemma_run(txns, tables, n);
    lemma_run_queue(txns, tables, n);
    law_pieces_run_in_order(txns.last(), tables.last());
    law_done_comes_last(txns.last(), tables.last());
    assert(queue(txns.last()) =~= seq![]);
    assert(pieces_run(txns, tables, n) + seq![] =~= pieces_run(txns, tables, n));
    assert(queue(txns[0]) =~= queue(txn));
}

proof fn lemma_run_commits(txns: Seq<TxnView>, tables: Seq<TxnTableView>, n: nat)
    requires
        is_run(txns, tables),
        in_order(txns[0], tables[0]),
        !txns[0].in_call(),
        !(txns[0].phase is Idle),
        forall|i: int| 0 <= i < txns.len() - 1 ==> #[trigger] leaves_pieces(txns, tables, i),
        forall|i: int| 0 <= i < txns.len() - 1 ==> #[trigger] no_other_commit(txns, tables, i),
        n < txns.len(),
    ensures
        commits_left(txns[n as int]) <= commits_left(txns[0]),
        tables[n as int].success == (tables[0].success + commits_left(txns[0]) - commits_left(
            txns[n as int],
        )) % 0x1_0000_0000_0000_0000,
    decreases n,
{
    if n > 0 {
        lemma_run(txns, tables, (n - 1) as nat);
        lemma_run_commits(txns, tables, (n - 1) as nat);
        let (txn, table) = (txns[n - 1], tables[n - 1]);
        assert(run_step(txns, tables, n - 1));
        assert(leaves_pieces(txns, tables, n - 1));
        assert(no_other_commit(txns, tables, n - 1));
        law_every_commit_is_counted(txn, table);
        assert(queue(txns[n as int]) == queue(txn.next_step(table).txn));
    }
}

/// An execution of some pieces counts one commit for each of them and one for the
/// whole, if the pieces' work leaves the pieces alone and nobody else commits
/// meanwhile.
pub proof fn law_execution_commits_once_more_than_pieces(
    txn: TxnView,
    txns: Seq<TxnView>,
    tables: Seq<TxnTableView>,
)
    requires
        in_order(txn, tables[0]),
        txn.at_rest(),
        is_run(txns, tables),
        txns[0] == txn.begun(),
        forall|i: int| 0 <= i < txns.len() - 1 ==> #[trigger] leaves_pieces(txns, tables, i),
        forall|i: int| 0 <= i < txns.len() - 1 ==> #[trigger] no_other_commit(txns, tables, i),
        txns.last().next_step(tables.last()).action is Done,
    ensures
        txns.last().next_step(tables.last()).txns.success == (tables[0].success + queue(txn).len()
            + 1) % 0x1_0000_0000_0000_0000,
{
    let n = (txns.len() - 1) as nat;
    law_calls_keep_order(txn, arbitrary(), tables[0]);
    lemma_run(txns, tables, n);
    lemma_run_commits(txns, tables, n);
    law_every_commit_is_counted(txns.last(), tables.last());
    assert(queue(txns[0]) =~= queue(txn));
}

proof fn lemma_run_status(txns: Seq<TxnView>, tables: Seq<TxnTableView>, n: nat)
    requires
        is_run(txns, tables),
        in_order(txns[0], tables[0]),
        txns[0].phase is Fetch,
        txns[0].status == TxState::ACTIVE,
        n < txns.len(),
    ensures
        ({
            let txn = txns[n as int];
            let ran = pieces_run(txns, tables, n).len() > 0;
            &&& txn.phase is Fetch || txn.phase is Start ==> if ran {
                txn.status == TxState::COMMITTED || txn.status == TxState::PERSIST
            } else {
                txn.status == TxState::ACTIVE
            }
            &&& txn.phase is Running ==> ran
            &&& txn.phase == (Phase::PersistWait { then: Then::NextPiece }) ==> ran
            &&& txn.phase == (Phase::Persisting { then: Then::NextPiece }) ==> ran
        }),
    decreases n,
{
    if n > 0 {
        lemma_run_status(txns, tables, (n - 1) as nat);
        lemma_run(txns, tables, (n - 1) as nat);
        assert(run_step(txns, tables, n - 1));
    }
}

/// The first piece of an execution runs while the transaction is active, and every
/// later one after it has committed, or persisted where the memory is persistent.
pub proof fn law_later_pieces_follow_a_commit(
    txn: TxnView,
    txns: Seq<TxnView>,
    tables: Seq<TxnTableView>,
)
    requires
        in_order(txn, tables[0]),
        txn.at_rest(),
        is_run(txns, tables),
        txns[0] == txn.begun(),
        txns.last().next_step(tables.last()).action is Run,
    ensures
        ({
            let status = txns.last().next_step(tables.last()).txn.status;
            if pieces_run(txns, tables, (txns.len() - 1) as nat).len() == 0 {
                status == TxState::ACTIVE
            } else {
                status == TxState::COMMITTED || status == TxState::PERSIST
            }
        }),
{
    let n = (txns.len() - 1) as nat;
    law_calls_keep_order(txn, arbitrary(), tables[0]);
    lemma_run(txns, tables, n);
    lemma_run_status(txns, tables, n);
}

/// An execution is over only when no piece is left and every dependency has
/// committed; the transaction has committed then, and persisted where the memory is
/// persistent.
pub proof fn law_done_comes_last(txn: TxnView, txns: TxnTableView)
    requires
        in_order(txn, txns),
        !txn.in_call(),
        !(txn.phase is Idle),
        txn.next_step(txns).action is Done,
    ensures
        ({
            let step = txn.next_step(txns);
            &&& queue(step.txn).len() == 0
            &&& step.txn == TxnView { status: step.txn.status, ..txn.returned() }
            &&& forall|k: u32| #[trigger]
                txn.deps.contains_key(k) ==> step.txns.infos[txn.deps[k].0 as int].committed
            &&& step.txns.infos[txn.info.0 as int].committed
            &&& if txn.phase is Persisting {
                step.txns.infos[txn.info.0 as int].persisted && step.txn.status == TxState::PERSIST
            } else {
                !txns.pmem && step.txn.status == TxState::COMMITTED
            }
        }),
{
    if txn.starting is None {
        lemma_take_next(txn);
    }
}

/// An execution runs a piece only when every dependency has committed or got as far
/// as the transaction.
pub proof fn law_run_follows_deps(txn: TxnView, txns: TxnTableView)
    requires
        txn.wf(txns),
        txn.next_step(txns).action is Run,
    ensures
        ({
            let step = txn.next_step(txns);
            &&& forall|k: u32| #[trigger]
                txn.deps.contains_key(k) ==> step.txns.infos[txn.deps[k].0 as int].committed
                    || step.txns.infos[txn.deps[k].0 as int].rank
                    >= step.txns.infos[txn.info.0 as int].rank
            &&& step.txn.phase == Phase::Running { alone: false }
        }),
{
}

/// A transaction persists, by whatever step, only after every transaction that it
/// depends on.
pub proof fn law_persist_follows_deps(txn: TxnView, txns: TxnTableView)
    requires
        txn.wf(txns),
        !txns.infos[txn.info.0 as int].persisted,
    ensures
        txn.next_step(txns).txns.infos[txn.info.0 as int].persisted ==> forall|k: u32| #[trigger]
            txn.deps.contains_key(k) ==> txns.infos[txn.deps[k].0 as int].persisted,
        !txn.called().commit_step(Then::Return, txns).txns.infos[txn.info.0 as int].persisted,
{
}

/// With every dependency committed and persisted a transaction never waits. A
/// transaction that depends on itself, as one does that has two optimistic pieces on
/// one object, may have to wait for itself.
pub proof fn law_ready_never_waits(txn: TxnView, txns: TxnTableView)
    requires
        txn.wf(txns),
        forall|k: u32| #[trigger]
            txn.deps.contains_key(k) ==> txns.at(txn.deps[k]).committed && txns.at(
                txn.deps[k],
            ).persisted,
    ensures
        !(txn.next_step(txns).action is Wait),
        !(txn.called().commit_step(Then::Return, txns).action is Wait),
{
}

/// Waiting changes nothing: as long as the table stays as it is, a step after one
/// that waits waits too, and the transaction stays as it is.
pub proof fn law_waiting_changes_nothing(txn: TxnView, txns: TxnTableView)
    requires
        txn.wf(txns),
        txn.next_step(txns).action is Wait,
    ensures
        ({
            let step = txn.next_step(txns);
            step.txn.next_step(step.txns) == step
        }),
{
}

/// An execution that nobody adds pieces to ends: every action it asks for other than
/// to wait brings it nearer to its end, and waiting does not take it away.
pub proof fn law_execution_ends(txn: TxnView, txns: TxnTableView)
    requires
        in_order(txn, txns),
    ensures
        actions_left(txn) > 0,
        match txn.next_step(txns).action {
            ActionView::Done => true,
            ActionView::Wait => actions_left(txn.next_step(txns).txn) <= actions_left(txn),
            _ => actions_left(txn.next_step(txns).txn) < actions_left(txn),
        },
{
    law_pieces_run_in_order(txn, txns);
}

/// Every piece commits when it has run, and the transaction once more at the end: a
/// step counts the commits by which it brings the execution nearer to its end, and
/// at the end none is left.
pub proof fn law_every_commit_is_counted(txn: TxnView, txns: TxnTableView)
    requires
        in_order(txn, txns),
        !txn.in_call(),
        !(txn.phase is Idle),
    ensures
        ({
            let step = txn.next_step(txns);
            let left = if step.action is Done {
                0
            } else {
                commits_left(step.txn)
            };
            &&& commits_left(txn) >= left
            &&& step.txns.success == (txns.success + commits_left(txn) - left)
                % 0x1_0000_0000_0000_0000
        }),
{
    law_pieces_run_in_order(txn, txns);
    if txn.starting is None {
        lemma_take_next(txn);
    }
}

/// A commit is begun in order, and so are a piece that runs alone and an execution.
pub proof fn law_calls_keep_order(txn: TxnView, piece: Piece, txns: TxnTableView)
    requires
        in_order(txn, txns),
        txn.at_rest(),
    ensures
        ({
            let step = txn.called().commit_step(Then::Return, txns);
            in_order(step.txn, step.txns)
        }),
        in_order(txn.piece_step(piece, txns).txn, txns),
        in_order(txn.begun(), txns),
        !txn.begun().in_call(),
{
}

/// A commit on memory that is not persistent is over at once. Otherwise it goes on in
/// steps, while others change the table, and when it is over every dependency has
/// persisted, the transaction has committed and persisted, and nothing else of it has
/// changed: in particular a piece whose work has committed is running again.
pub proof fn law_commit_is_durable(
    txn: TxnView,
    before: TxnTableView,
    txns: Seq<TxnView>,
    tables: Seq<TxnTableView>,
)
    requires
        in_order(txn, before),
        txn.at_rest(),
        is_run(txns, tables),
        txns[0] == txn.called().commit_step(Then::Return, before).txn,
        table_grows(txn.called().commit_step(Then::Return, before).txns, tables[0]),
        before.pmem,
        txns.last().next_step(tables.last()).action is Done,
    ensures
        ({
            let step = txns.last().next_step(tables.last());
            &&& forall|k: u32| #[trigger]
                txn.deps.contains_key(k) ==> tables.last().infos[txn.deps[k].0 as int].persisted
            &&& step.txn == (TxnView { status: TxState::PERSIST, ..txn })
            &&& step.txns.infos[txn.info.0 as int].committed
            &&& step.txns.infos[txn.info.0 as int].persisted
        }),
{
    let begun = txn.called().committed();
    law_calls_keep_order(txn, arbitrary(), before);
    law_others_keep_order(
        txns[0],
        txn.called().commit_step(Then::Return, before).txns,
        tables[0],
    );
    lemma_commit_run(begun, txns, tables, (txns.len() - 1) as nat);
    let step = txns.last().next_step(tables.last());
    assert(step.txn == txns.last().persisted().returned());
    assert(txn.phase is Running ==> txn.callers.push(txn.phase).drop_last() =~= txn.callers);
}

proof fn lemma_commit_run(
    begun: TxnView,
    txns: Seq<TxnView>,
    tables: Seq<TxnTableView>,
    n: nat,
)
    requires
        is_run(txns, tables),
        in_order(txns[0], tables[0]),
        tables[0].pmem,
        ({
            ||| txns[0] == (TxnView { phase: Phase::PersistWait { then: Then::Return }, ..begun })
            ||| txns[0] == (TxnView { phase: Phase::Persisting { then: Then::Return }, ..begun })
        }),
        n < txns.len(),
    ensures
        in_order(txns[n as int], tables[n as int]),
        ({
            let txn = txns[n as int];
            ||| txn == (TxnView { phase: Phase::PersistWait { then: Then::Return }, ..begun })
            ||| txn == (TxnView { phase: Phase::Persisting { then: Then::Return }, ..begun })
        }),
    decreases n,
{
    if n > 0 {
        lemma_commit_run(begun, txns, tables, (n - 1) as nat);
        let (txn, table) = (txns[n - 1], tables[n - 1]);
        let step = txn.next_step(table);
        assert(run_step(txns, tables, n - 1));
        law_steps_keep_order(txn, table);
        law_others_keep_order(step.txn, step.txns, tables[n as int]);
    }
}

/// A step changes the transaction's own entry of the table only, and what has
/// committed or persisted stays so.
pub proof fn law_steps_leave_others_alone(txn: TxnView, txns: TxnTableView)
    requires
        txn.wf(txns),
    ensures
        table_grows(txns, txn.next_step(txns).txns),
        txn.next_step(txns).txns.infos.len() == txns.infos.len(),
        forall|r: TxnRef|
            txns.valid(r) && r != txn.info ==> #[trigger] txn.next_step(txns).txns.at(r)
                == txns.at(r),
        txn.next_step(txns).txns.at(txn.info).rank == txns.at(txn.info).rank,
        txn.next_step(txns).txn.deps == txn.deps,
{
}

/// A transaction that may commit or persist still may when others have gone on, and
/// its references stay valid.
pub proof fn law_readiness_is_kept(txn: TxnView, txns: TxnTableView, later: TxnTableView)
    requires
        txn.wf(txns),
        table_grows(txns, later),
    ensures
        txn.wf(later),
        txn.may_commit(txns) ==> txn.may_commit(later),
        txn.may_persist(txns) ==> txn.may_persist(later),
{
}

/// Dependencies that have all committed let any piece start.
pub proof fn law_committed_deps_let_start(txn: TxnView, txns: TxnTableView)
    requires
        txn.may_commit(txns),
    ensures
        txn.may_start(txns),
{
}

/// A dependency is entered once: a second entry under the same identifier changes
/// nothing, and entries under different identifiers can be made in any order.
pub proof fn law_deps_are_a_set(txn: TxnView, a: u32, ra: TxnRef, b: u32, rb: TxnRef)
    ensures
        txn.with_dep(a, ra).with_dep(a, rb) == txn.with_dep(a, ra),
        a != b ==> txn.with_dep(a, ra).with_dep(b, rb) == txn.with_dep(b, rb).with_dep(a, ra),
{
}

} // verus!
