//! Laws of waiting: what keeps a transaction from going on, what does not, and what a
//! step leaves alone. They speak of the entries of the table themselves.

use vstd::prelude::*;

use crate::laws::execution::{in_order, lemma_take_next, queue};
use crate::parnvm::nvm_txn::{ActionView, Phase, Then, TxnView};
use crate::piece::Piece;
use crate::plog::DataRecord;
use crate::txn::{Tid, TxState, TxnInfo, TxnRef, TxnTableView};

verus! {

/// The next step is about the pieces that are left: the dependencies have a say, and
/// nothing else does.
pub open spec fn turns_to_pieces(txn: TxnView, txns: TxnTableView) -> bool {
    ||| txn.phase is Fetch
    ||| txn.phase is Start
    ||| txn.phase is CommitWait
    ||| txn.phase == Phase::Running { alone: false } && !txns.pmem
}

/// The next step ends a piece's work with a commit of its own.
pub open spec fn ends_with_commit(txn: TxnView, txns: TxnTableView) -> bool {
    txn.phase is Running && (txns.pmem || txn.phase == Phase::Running { alone: true })
}

/// What the rounds of the three waits answer, in terms of the entries of the table: a
/// piece may start if each dependency has committed or has a rank not less than the
/// transaction's own, the whole may commit if each has committed, and the commit record
/// may be written if each has persisted.
pub proof fn law_waits_ask_every_dependency(txn: TxnView, txns: TxnTableView)
    ensures
        txn.may_start(txns) <==> forall|k: u32| #[trigger]
            txn.deps.contains_key(k) ==> txns.infos[txn.deps[k].0 as int].committed
                || txns.infos[txn.deps[k].0 as int].rank >= txns.infos[txn.info.0 as int].rank,
        txn.may_commit(txns) <==> forall|k: u32| #[trigger]
            txn.deps.contains_key(k) ==> txns.infos[txn.deps[k].0 as int].committed,
        txn.may_persist(txns) <==> forall|k: u32| #[trigger]
            txn.deps.contains_key(k) ==> txns.infos[txn.deps[k].0 as int].persisted,
{
}

/// If a piece is left, it runs exactly if every dependency has committed or has got at
/// least as far as the transaction, and is waited for otherwise. It is the first of the
/// queue.
pub proof fn law_piece_runs_exactly_when_deps_allow(txn: TxnView, txns: TxnTableView)
    requires
        txn.wf(txns),
        turns_to_pieces(txn, txns),
        !(txn.phase is CommitWait),
        queue(txn).len() > 0,
    ensures
        ({
            let step = txn.next_step(txns);
            let allowed = forall|k: u32| #[trigger]
                txn.deps.contains_key(k) ==> step.txns.infos[txn.deps[k].0 as int].committed
                    || step.txns.infos[txn.deps[k].0 as int].rank
                    >= step.txns.infos[txn.info.0 as int].rank;
            &&& allowed ==> step.action == ActionView::Run(queue(txn)[0])
            &&& !allowed ==> step.action == ActionView::Wait
        }),
{
    assert(txn.starting is None && txn.wait is None ==> txn.pieces.reverse()[0]
        == txn.pieces.last());
}

/// If no piece is left, or none was when the wait for the end began, the transaction
/// commits as a whole exactly if every dependency has committed, and waits otherwise.
/// The commit of a piece that has just run counts for a transaction that depends on
/// itself.
pub proof fn law_end_comes_exactly_when_deps_have_committed(txn: TxnView, txns: TxnTableView)
    requires
        txn.wf(txns),
        turns_to_pieces(txn, txns),
        queue(txn).len() == 0 || txn.phase is CommitWait,
    ensures
        ({
            let step = txn.next_step(txns);
            let late = exists|k: u32| #[trigger]
                txn.deps.contains_key(k) && !txns.infos[txn.deps[k].0 as int].committed && !(
                txn.phase is Running && txn.deps[k] == txn.info);
            &&& late ==> step.action is Wait && step.txn.phase is CommitWait
            &&& !late ==> {
                &&& !(step.txn.phase is CommitWait)
                &&& step.txns.infos[txn.info.0 as int].committed
                &&& step.txns.success != txns.success
                &&& !txns.pmem ==> step.action is Done
                &&& txns.pmem ==> step.txn.phase == (Phase::Persisting { then: Then::Finish })
                    || step.txn.phase == (Phase::PersistWait { then: Then::Finish })
            }
        }),
{
    if txn.starting is None {
        lemma_take_next(txn);
    }
}

/// The commit record is asked for exactly if a commit is under way and every dependency
/// has persisted; otherwise the commit waits. The transaction has committed by then, and
/// the record is its own.
pub proof fn law_record_comes_exactly_when_deps_have_persisted(txn: TxnView, txns: TxnTableView)
    requires
        in_order(txn, txns),
        txns.pmem,
    ensures
        ({
            let step = txn.next_step(txns);
            let ready = forall|k: u32| #[trigger]
                txn.deps.contains_key(k) ==> step.txns.infos[txn.deps[k].0 as int].persisted;
            &&& step.action is PersistTxn ==> {
                &&& ready
                &&& step.action == ActionView::PersistTxn(txn.id.0)
                &&& step.txn.phase is Persisting
                &&& step.txns.infos[txn.info.0 as int].committed
            }
            &&& ends_with_commit(txn, txns) || txn.phase is PersistWait ==> if ready {
                step.action is PersistTxn
            } else {
                step.action is Wait
            }
        }),
{
}

/// A transaction counts as persisted from the step on that follows the writing of its
/// commit record, and by no other step; by then every dependency has persisted.
pub proof fn law_persisted_means_recorded(txn: TxnView, txns: TxnTableView)
    requires
        txn.wf(txns),
    ensures
        ({
            let step = txn.next_step(txns);
            let own = txn.info.0 as int;
            &&& step.txns.infos[own].persisted <==> txns.infos[own].persisted
                || txn.phase is Persisting
            &&& txn.phase is Persisting ==> forall|k: u32| #[trigger]
                txn.deps.contains_key(k) ==> txns.infos[txn.deps[k].0 as int].persisted
        }),
{
}

/// A commit that is asked for shows at once: the transaction's entry is committed, the
/// count goes up by one, and nothing else of the table changes. On memory that is not
/// persistent it is over; otherwise the commit record is asked for if every dependency
/// has persisted, and waited for if not.
pub proof fn law_commit_shows_at_once(txn: TxnView, txns: TxnTableView)
    requires
        txn.wf(txns),
        txn.at_rest(),
    ensures
        ({
            let step = txn.called().commit_step(Then::Return, txns);
            let own = txn.info.0 as int;
            let ready = forall|k: u32| #[trigger]
                txn.deps.contains_key(k) ==> step.txns.infos[txn.deps[k].0 as int].persisted;
            &&& step.txns.infos == txns.infos.update(
                own,
                TxnInfo { committed: true, ..txns.infos[own] },
            )
            &&& step.txns.success == (txns.success + 1) % 0x1_0000_0000_0000_0000
            &&& step.txns.pmem == txns.pmem
            &&& step.txn == (TxnView {
                status: TxState::COMMITTED,
                phase: step.txn.phase,
                callers: step.txn.callers,
                ..txn
            })
            &&& if !txns.pmem {
                &&& step.action is Done
                &&& step.txn.phase == txn.phase
                &&& step.txn.callers == txn.callers
            } else if ready {
                step.action == ActionView::PersistTxn(txn.id.0)
            } else {
                step.action is Wait
            }
        }),
{
    assert(txn.phase is Running ==> txn.callers.push(txn.phase).drop_last() =~= txn.callers);
}

/// Whoever waits has a reason, which the phase names: a dependency that has not
/// committed and lies behind, one that has not committed, or one that has not persisted.
pub proof fn law_waiting_has_a_reason(txn: TxnView, txns: TxnTableView)
    requires
        in_order(txn, txns),
        txn.next_step(txns).action is Wait,
    ensures
        ({
            let step = txn.next_step(txns);
            let own = step.txns.infos[txn.info.0 as int];
            match step.txn.phase {
                Phase::Start => queue(txn).len() > 0 && exists|k: u32| #[trigger]
                    txn.deps.contains_key(k) && !step.txns.infos[txn.deps[k].0 as int].committed
                        && step.txns.infos[txn.deps[k].0 as int].rank < own.rank,
                Phase::CommitWait => queue(txn).len() == 0 && exists|k: u32| #[trigger]
                    txn.deps.contains_key(k) && !step.txns.infos[txn.deps[k].0 as int].committed,
                Phase::PersistWait { .. } => exists|k: u32| #[trigger]
                    txn.deps.contains_key(k) && !step.txns.infos[txn.deps[k].0 as int].persisted,
                _ => false,
            }
        }),
{
    if txn.starting is None {
        lemma_take_next(txn);
    }
}

/// A dependency that gets further never takes a start back: a piece that runs on one
/// table runs on every table on which the dependencies have committed or got further,
/// with the transaction's own rank as it was.
pub proof fn law_further_deps_still_allow(txn: TxnView, txns: TxnTableView, later: TxnTableView)
    requires
        txn.wf(txns),
        txn.wf(later),
        later.pmem == txns.pmem,
        later.infos[txn.info.0 as int].rank == txns.infos[txn.info.0 as int].rank,
        forall|k: u32| #[trigger]
            txn.deps.contains_key(k) ==> {
                let before = txns.infos[txn.deps[k].0 as int];
                let after = later.infos[txn.deps[k].0 as int];
                &&& before.committed ==> after.committed
                &&& after.committed || after.rank >= before.rank
            },
    ensures
        txn.may_start(txns) ==> txn.may_start(later),
        txn.next_step(txns).action is Run ==> txn.next_step(later).action == txn.next_step(
            txns,
        ).action,
{
}

/// What a step does to the table: it changes the transaction's own entry only, and of
/// that neither the identifier nor the rank; what has committed stays so, and a commit
/// that is counted shows in the entry and in the status.
pub proof fn law_steps_account_for_themselves(txn: TxnView, txns: TxnTableView)
    requires
        txn.wf(txns),
    ensures
        ({
            let step = txn.next_step(txns);
            let own = txn.info.0 as int;
            &&& step.txns.infos.len() == txns.infos.len()
            &&& step.txns.pmem == txns.pmem
            &&& forall|i: int|
                0 <= i < txns.infos.len() && i != own ==> (#[trigger] step.txns.infos[i])
                    == txns.infos[i]
            &&& step.txns.infos[own].tid == txns.infos[own].tid
            &&& step.txns.infos[own].rank == txns.infos[own].rank
            &&& if step.txns.success != txns.success {
                &&& step.txns.infos[own].committed
                &&& step.txn.status == TxState::COMMITTED
            } else {
                &&& step.txns.infos[own].committed == txns.infos[own].committed
                &&& step.txn.status == if txn.phase is Persisting {
                    TxState::PERSIST
                } else {
                    txn.status
                }
            }
            &&& txn.phase is Running ==> step.txns.success != txns.success
            &&& ends_with_commit(txn, txns) ==> step.txns.success == (txns.success + 1)
                % 0x1_0000_0000_0000_0000
            &&& txn.phase is Start || txn.phase is PersistWait || txn.phase is Persisting
                ==> step.txns.success == txns.success
        }),
{
}

/// What a step does to the transaction: it keeps its identity, its name, its entry and
/// its dependencies, takes at most the piece that waits or the last one of the list, and
/// remembers a piece whose work has asked for something until that is over.
pub proof fn law_steps_keep_identity(txn: TxnView, txns: TxnTableView)
    requires
        txn.wf(txns),
        !(txn.phase is Idle),
    ensures
        ({
            let step = txn.next_step(txns);
            &&& step.txn.id == txn.id
            &&& step.txn.name == txn.name
            &&& step.txn.info == txn.info
            &&& step.txn.deps == txn.deps
            &&& step.txn.wait == txn.wait && step.txn.pieces == txn.pieces || {
                &&& step.action is Run || step.action is Wait
                &&& if txn.wait is Some {
                    step.txn.wait is None && step.txn.pieces == txn.pieces
                } else {
                    step.txn.wait is None && txn.pieces == step.txn.pieces.push(txn.pieces.last())
                }
            }
            &&& !(step.action is Done) ==> step.txn.callers == txn.callers
            &&& step.action is Done ==> if txn.callers.len() > 0 {
                &&& step.txn.callers == txn.callers.take(txn.callers.len() - 1)
                &&& step.txn.phase == txn.callers[txn.callers.len() - 1]
            } else {
                step.txn.callers.len() == 0 && step.txn.phase is Idle
            }
        }),
{
    assert(txn.callers.len() > 0 ==> txn.callers.drop_last() =~= txn.callers.take(
        txn.callers.len() - 1,
    ));
    assert(txn.pieces.len() > 0 ==> txn.pieces =~= txn.pieces.drop_last().push(
        txn.pieces.last(),
    ));
}

/// A transaction is at its owner's disposal, or at that of the work of a piece, exactly
/// after the actions that end something or have a piece run; after all others a step is
/// due.
pub proof fn law_calls_come_between_steps(txn: TxnView, txns: TxnTableView)
    requires
        txn.wf(txns),
    ensures
        ({
            let step = txn.next_step(txns);
            step.txn.at_rest() <==> step.action is Run || step.action is Done
        }),
        txn.at_rest() ==> ({
            let step = txn.called().commit_step(Then::Return, txns);
            step.txn.at_rest() <==> step.action is Done
        }),
{
}

/// An execution begins with the transaction active and otherwise as it was; a piece that
/// runs by itself begins with nothing changed but that it runs. The piece whose work
/// asks for either is remembered behind those that were.
pub proof fn law_beginnings_change_little(txn: TxnView, piece: Piece, txns: TxnTableView)
    requires
        txn.wf(txns),
        txn.at_rest(),
    ensures
        ({
            let callers = if txn.phase is Running {
                txn.callers.push(txn.phase)
            } else {
                txn.callers
            };
            let alone = txn.piece_step(piece, txns);
            &&& txn.begun() == (TxnView {
                status: TxState::ACTIVE,
                phase: Phase::Fetch,
                callers,
                ..txn
            })
            &&& alone.action == ActionView::Run(piece)
            &&& alone.txns == txns
            &&& alone.txn == (TxnView { phase: Phase::Running { alone: true }, callers, ..txn })
        }),
{
}

/// The piece that is taken next is the one that waits, else the last one added, and
/// only it is taken; a piece that is put in front, or added, is the next to be taken.
pub proof fn law_next_piece_is_taken_once(txn: TxnView, piece: Piece)
    ensures
        match txn.next_piece() {
            Some(next) => {
                ||| txn == (TxnView { wait: Some(next), ..txn.without_next() })
                    && txn.without_next().wait is None
                ||| txn.wait is None && txn == (TxnView {
                    pieces: txn.without_next().pieces.push(next),
                    ..txn.without_next()
                })
            },
            None => txn.without_next() == txn && txn.pieces.len() == 0 && txn.wait is None,
        },
        (TxnView { wait: Some(piece), ..txn }).next_piece() == Some(piece),
        txn.wait is None ==> (TxnView {
            pieces: txn.pieces.push(piece),
            ..txn
        }).next_piece() == Some(piece),
        txn.wait is None ==> (TxnView {
            pieces: txn.pieces.push(piece),
            ..txn
        }).without_next() == txn,
{
    assert(txn.pieces.len() > 0 ==> txn.pieces.drop_last().push(txn.pieces.last())
        =~= txn.pieces);
    assert(txn.pieces.push(piece).drop_last() =~= txn.pieces);
}

/// A new transaction has its pieces and its name, and nothing else: it waits for
/// nobody, has changed nothing, and has not begun.
pub proof fn law_new_transactions_are_blank(
    pieces: Seq<Piece>,
    id: Tid,
    name: Seq<char>,
    info: TxnRef,
)
    ensures
        ({
            let txn = TxnView::fresh(pieces, id, name, info);
            &&& txn.id == id && txn.name == name && txn.info == info
            &&& txn.pieces == pieces && txn.wait is None && txn.starting is None
            &&& txn.status == TxState::EMBRYO && txn.phase is Idle
            &&& txn.callers.len() == 0 && txn.records.len() == 0
            &&& forall|k: u32| !(#[trigger] txn.deps.contains_key(k))
            &&& queue(txn) == pieces.reverse()
        }),
{
    assert(queue(TxnView::fresh(pieces, id, name, info)) =~= pieces.reverse());
}

/// What its owner or the work of a piece may do to a transaction between two steps, to
/// depend on another, to note a range, to add a piece or to put one in front, leaves it
/// ready for the next step.
pub proof fn law_changes_between_steps_are_safe(
    txn: TxnView,
    txns: TxnTableView,
    tid: u32,
    info: TxnRef,
    record: DataRecord,
    piece: Piece,
)
    requires
        txn.wf(txns),
        txn.at_rest(),
        txns.valid(info),
    ensures
        txn.with_dep(tid, info).wf(txns),
        (TxnView { records: txn.records.push(record), ..txn }).wf(txns),
        (TxnView { pieces: txn.pieces.push(piece), ..txn }).wf(txns),
        (TxnView { wait: Some(piece), ..txn }).wf(txns),
        txn.without_next().wf(txns),
{
}

/// A dependency that is added is there afterwards, unless its identifier was taken, and
/// nothing else changes: all other dependencies stay, and so does the one that had the
/// identifier first.
pub proof fn law_added_dep_is_there(txn: TxnView, tid: u32, info: TxnRef, other: u32)
    ensures
        ({
            let after = txn.with_dep(tid, info);
            &&& after == (TxnView { deps: after.deps, ..txn })
            &&& after.deps.contains_key(other) <==> txn.deps.contains_key(other) || other == tid
            &&& txn.deps.contains_key(other) ==> after.deps[other] == txn.deps[other]
            &&& !txn.deps.contains_key(tid) ==> after.deps[tid] == info
        }),
{
}

/// An entry of the table reads back as it was written, and writing one leaves all others,
/// the count and the kind of memory alone.
pub proof fn law_entries_read_back(txns: TxnTableView, r: TxnRef, info: TxnInfo)
    ensures
        txns.valid(r) <==> r.0 < txns.infos.len(),
        txns.valid(r) ==> txns.at(r) == txns.infos[r.0 as int],
        txns.valid(r) ==> ({
            let after = txns.with(r, info);
            &&& after.infos.len() == txns.infos.len()
            &&& after.infos[r.0 as int] == info
            &&& after.success == txns.success
            &&& after.pmem == txns.pmem
            &&& forall|i: int|
                0 <= i < txns.infos.len() && i != r.0 ==> (#[trigger] after.infos[i])
                    == txns.infos[i]
        }),
{
}

} // verus!
