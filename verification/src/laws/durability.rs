//! Laws of persistent memory: no record is lost, and what is over is durable.

use vstd::prelude::*;

use crate::laws::execution::{
    in_order, is_run, law_calls_keep_order, law_done_comes_last, law_others_keep_order,
    law_steps_keep_order, lemma_run, pieces_run, run_step, table_grows, worked_on,
};
use crate::parnvm::nvm_txn::{ActionView, Phase, Then, TxnView};
use crate::piece::Piece;
use crate::plog::DataRecord;
use crate::txn::{TxState, TxnTableView};

verus! {

/// What the first `n` steps have asked to be flushed, in order.
pub open spec fn flushed(txns: Seq<TxnView>, tables: Seq<TxnTableView>, n: nat) -> Seq<DataRecord>
    decreases n,
{
    if n == 0 {
        seq![]
    } else {
        let before = flushed(txns, tables, (n - 1) as nat);
        match txns[n - 1].next_step(tables[n - 1]).action {
            ActionView::Flush(records) => before + records,
            _ => before,
        }
    }
}

/// The work of the piece that step `i` has run, if any, forgets no record.
pub open spec fn keeps_records(txns: Seq<TxnView>, tables: Seq<TxnTableView>, i: int) -> bool {
    txns[i].next_step(tables[i]).txn.records.is_prefix_of(txns[i + 1].records)
}

/// The records that the work of pieces has added during the first `n` steps, in order.
pub open spec fn added(txns: Seq<TxnView>, tables: Seq<TxnTableView>, n: nat) -> Seq<DataRecord>
    decreases n,
{
    if n == 0 {
        seq![]
    } else {
        added(txns, tables, (n - 1) as nat) + txns[n as int].records.skip(
            txns[n - 1].next_step(tables[n - 1]).txn.records.len() as int,
        )
    }
}

/// A step takes records away only by having them flushed: all of them at once, those
/// with an address in their order. Whatever else it does, it leaves them alone.
pub proof fn law_records_leave_only_to_be_flushed(txn: TxnView, txns: TxnTableView)
    requires
        txn.wf(txns),
    ensures
        ({
            let step = txn.next_step(txns);
            match step.action {
                ActionView::Flush(records) => {
                    &&& records == txn.records.filter(|r: DataRecord| r.ptr is Some)
                    &&& step.txn.records.len() == 0
                },
                _ => step.txn.records == txn.records,
            }
        }),
{
}

/// Once a commit record is written, the ranges are flushed and the next piece is looked
/// for if a piece of an execution has committed, and what was asked for is over
/// otherwise; nothing is flushed at any other time.
pub proof fn law_flush_follows_the_record_of_a_piece(txn: TxnView, txns: TxnTableView)
    requires
        txn.wf(txns),
    ensures
        ({
            let step = txn.next_step(txns);
            &&& step.action is Flush <==> txn.phase == (Phase::Persisting { then: Then::NextPiece })
            &&& step.action is Flush ==> step.txn.phase is Fetch
            &&& txn.phase is Persisting ==> step.action is Flush || step.action is Done
        }),
{
}

/// Flushing leaves out nothing that has an address and makes nothing up.
pub proof fn law_flush_holds_every_address(txn: TxnView, txns: TxnTableView, r: DataRecord)
    requires
        txn.wf(txns),
        txn.next_step(txns).action is Flush,
    ensures
        txn.next_step(txns).action->Flush_0.contains(r) <==> txn.records.contains(r)
            && r.ptr is Some,
{
    let has_ptr = |r: DataRecord| r.ptr is Some;
    law_records_leave_only_to_be_flushed(txn, txns);
    let records = txn.records.filter(has_ptr);
    assert(txn.next_step(txns).action->Flush_0 == records);
    if records.contains(r) {
        txn.records.lemma_filter_contains_rev(has_ptr, r);
        let i = choose|i: int| 0 <= i < records.len() && records[i] == r;
        txn.records.lemma_filter_pred(has_ptr, i);
    }
    if txn.records.contains(r) && r.ptr is Some {
        let i = choose|i: int| 0 <= i < txn.records.len() && txn.records[i] == r;
        txn.records.lemma_filter_contains(has_ptr, i);
    }
}

/// No record is lost on the way through an execution, however others change the
/// table: what has been flushed and what is still to be flushed is, in order, what was
/// there at the beginning and what the pieces' work has added, as far as it has an
/// address.
pub proof fn law_no_record_is_lost(txns: Seq<TxnView>, tables: Seq<TxnTableView>, n: nat)
    requires
        is_run(txns, tables),
        in_order(txns[0], tables[0]),
        !txns[0].in_call(),
        !(txns[0].phase is Idle),
        forall|i: int| 0 <= i < txns.len() - 1 ==> #[trigger] keeps_records(txns, tables, i),
        n < txns.len(),
    ensures
        flushed(txns, tables, n) + txns[n as int].records.filter(|r: DataRecord| r.ptr is Some)
            == (txns[0].records + added(txns, tables, n)).filter(|r: DataRecord| r.ptr is Some),
    decreases n,
{
    let has_ptr = |r: DataRecord| r.ptr is Some;
    if n > 0 {
        law_no_record_is_lost(txns, tables, (n - 1) as nat);
        lemma_run(txns, tables, (n - 1) as nat);
        let (txn, table) = (txns[n - 1], tables[n - 1]);
        let step = txn.next_step(table);
        assert(run_step(txns, tables, n - 1));
        assert(keeps_records(txns, tables, n - 1));
        law_records_leave_only_to_be_flushed(txn, table);
        let now = txns[n as int].records;
        let new = now.skip(step.txn.records.len() as int);
        let all = txns[0].records + added(txns, tables, (n - 1) as nat);
        assert(now =~= step.txn.records + new);
        assert(txns[0].records + added(txns, tables, n) =~= all + new);
        Seq::filter_distributes_over_add(step.txn.records, new, has_ptr);
        Seq::filter_distributes_over_add(all, new, has_ptr);
        if step.action is Flush {
            assert(step.txn.records.filter(has_ptr) =~= seq![]) by {
                reveal(Seq::filter);
            }
            assert(flushed(txns, tables, n) =~= flushed(txns, tables, (n - 1) as nat)
                + txn.records.filter(has_ptr));
        }
        assert(flushed(txns, tables, n) + now.filter(has_ptr) =~= (all + new).filter(has_ptr));
    } else {
        assert(txns[0].records + added(txns, tables, 0) =~= txns[0].records);
        assert(flushed(txns, tables, 0) + txns[0].records.filter(has_ptr)
            =~= txns[0].records.filter(has_ptr));
    }
}

/// A commit record is waited for or written on persistent memory only.
proof fn lemma_persists_on_pmem(txns: Seq<TxnView>, tables: Seq<TxnTableView>, n: nat)
    requires
        is_run(txns, tables),
        txns[0].phase is Fetch,
        in_order(txns[0], tables[0]),
        n < txns.len(),
    ensures
        txns[n as int].phase is PersistWait || txns[n as int].phase is Persisting
            ==> tables[n as int].pmem,
        tables[n as int].pmem == tables[0].pmem,
    decreases n,
{
    if n > 0 {
        lemma_persists_on_pmem(txns, tables, (n - 1) as nat);
        lemma_run(txns, tables, (n - 1) as nat);
        assert(run_step(txns, tables, n - 1));
    }
}

proof fn lemma_piece_is_durable(txns: Seq<TxnView>, tables: Seq<TxnTableView>, n: nat)
    requires
        is_run(txns, tables),
        in_order(txns[0], tables[0]),
        txns[0].phase is Fetch,
        n < txns.len(),
    ensures
        tables[n as int].pmem == tables[0].pmem,
        txns[n as int].info == txns[0].info,
        ({
            let txn = txns[n as int];
            let own = tables[n as int].infos[txn.info.0 as int];
            let ran = pieces_run(txns, tables, n).len() > 0;
            &&& ran && !(txn.phase is Running) ==> own.committed
            &&& ran && (txn.phase is Fetch || txn.phase is Start || txn.phase is CommitWait)
                ==> if tables[0].pmem {
                txn.records.len() == 0 && own.persisted && txn.status == TxState::PERSIST
            } else {
                txn.status == TxState::COMMITTED
            }
            &&& ran && tables[0].pmem && txn.phase == (Phase::PersistWait { then: Then::Finish })
                ==> txn.records.len() == 0
            &&& ran && tables[0].pmem && txn.phase == (Phase::Persisting { then: Then::Finish })
                ==> txn.records.len() == 0
            &&& txn.phase is Running ==> ran
            &&& txn.phase == (Phase::PersistWait { then: Then::NextPiece }) ==> ran
            &&& txn.phase == (Phase::Persisting { then: Then::NextPiece }) ==> ran
        }),
    decreases n,
{
    if n > 0 {
        lemma_piece_is_durable(txns, tables, (n - 1) as nat);
        lemma_persists_on_pmem(txns, tables, (n - 1) as nat);
        lemma_run(txns, tables, (n - 1) as nat);
        lemma_run(txns, tables, n);
        assert(run_step(txns, tables, n - 1));
    }
}

/// Before an execution goes on from one piece to the next, or ends, the piece has
/// committed; on persistent memory it has persisted, too, and no record of it is left to
/// be flushed.
pub proof fn law_piece_is_settled_before_the_next(
    txn: TxnView,
    txns: Seq<TxnView>,
    tables: Seq<TxnTableView>,
)
    requires
        in_order(txn, tables[0]),
        txn.at_rest(),
        is_run(txns, tables),
        txns[0] == txn.begun(),
        pieces_run(txns, tables, (txns.len() - 1) as nat).len() > 0,
        ({
            ||| txns.last().next_step(tables.last()).action is Run
            ||| txns.last().next_step(tables.last()).action is Done
        }),
    ensures
        ({
            let step = txns.last().next_step(tables.last());
            let own = step.txns.infos[txn.info.0 as int];
            &&& own.committed
            &&& if tables[0].pmem {
                &&& own.persisted
                &&& step.txn.status == TxState::PERSIST
                &&& step.txn.records.len() == 0
            } else {
                step.txn.status == TxState::COMMITTED
            }
        }),
{
    let n = (txns.len() - 1) as nat;
    law_calls_keep_order(txn, arbitrary(), tables[0]);
    lemma_run(txns, tables, n);
    lemma_piece_is_durable(txns, tables, n);
    lemma_persists_on_pmem(txns, tables, n);
}

/// An execution that is over is as durable as the memory allows: the transaction and all
/// that it depends on have committed, and on persistent memory persisted.
pub proof fn law_execution_is_durable(
    txn: TxnView,
    txns: Seq<TxnView>,
    tables: Seq<TxnTableView>,
)
    requires
        in_order(txn, tables[0]),
        txn.at_rest(),
        is_run(txns, tables),
        txns[0] == txn.begun(),
        txns.last().next_step(tables.last()).action is Done,
    ensures
        ({
            let end = txns.last().next_step(tables.last());
            let own = end.txns.infos[txn.info.0 as int];
            &&& own.committed
            &&& tables[0].pmem ==> own.persisted
            &&& end.txn.status == if tables[0].pmem {
                TxState::PERSIST
            } else {
                TxState::COMMITTED
            }
            &&& forall|k: u32| #[trigger]
                end.txn.deps.contains_key(k) ==> {
                    let dep = end.txns.infos[end.txn.deps[k].0 as int];
                    dep.committed && (tables[0].pmem ==> dep.persisted)
                }
        }),
{
    let n = (txns.len() - 1) as nat;
    law_calls_keep_order(txn, arbitrary(), tables[0]);
    lemma_run(txns, tables, n);
    lemma_piece_is_durable(txns, tables, n);
    law_done_comes_last(txns.last(), tables.last());
    lemma_persists_on_pmem(txns, tables, n);
}

/// On memory that is not persistent, a piece that runs by itself is over as soon as its
/// work is: it has committed then.
pub proof fn law_lone_piece_commits(txn: TxnView, txns: TxnTableView)
    requires
        txn.wf(txns),
        txn.phase == (Phase::Running { alone: true }),
        !txns.pmem,
    ensures
        ({
            let step = txn.next_step(txns);
            &&& step.action is Done
            &&& step.txns.infos[txn.info.0 as int].committed
            &&& step.txns.success == (txns.success + 1) % 0x1_0000_0000_0000_0000
            &&& step.txn == (TxnView {
                status: TxState::COMMITTED,
                phase: step.txn.phase,
                callers: step.txn.callers,
                ..txn
            })
        }),
{
}

proof fn lemma_lone_run(txns: Seq<TxnView>, tables: Seq<TxnTableView>, n: nat)
    requires
        is_run(txns, tables),
        in_order(txns[0], tables[0]),
        txns[0].phase == (Phase::Running { alone: true }),
        tables[0].pmem,
        n < txns.len(),
    ensures
        in_order(txns[n as int], tables[n as int]),
        tables[n as int].pmem,
        n > 0 ==> ({
            let begun = txns[0].committed();
            ||| txns[n as int] == (TxnView {
                phase: Phase::PersistWait { then: Then::Return },
                ..begun
            })
            ||| txns[n as int] == (TxnView {
                phase: Phase::Persisting { then: Then::Return },
                ..begun
            })
        }),
    decreases n,
{
    if n > 0 {
        lemma_lone_run(txns, tables, (n - 1) as nat);
        let (txn, table) = (txns[n - 1], tables[n - 1]);
        let step = txn.next_step(table);
        assert(run_step(txns, tables, n - 1));
        law_steps_keep_order(txn, table);
        law_others_keep_order(step.txn, step.txns, tables[n as int]);
    }
}

/// On persistent memory a piece that runs by itself is over only when the transaction
/// has persisted: after the piece's work, along whatever steps and however others change
/// the table, the end finds the transaction committed and persisted and everything that
/// it depends on persisted. Nothing else of it has changed since the work was done, and
/// it stands where it stood when the piece was asked for.
pub proof fn law_lone_piece_is_durable(
    txn: TxnView,
    piece: Piece,
    before: TxnTableView,
    txns: Seq<TxnView>,
    tables: Seq<TxnTableView>,
)
    requires
        in_order(txn, before),
        txn.at_rest(),
        worked_on(txn.piece_step(piece, before).txn, txns[0]),
        table_grows(before, tables[0]),
        txns[0].linked(tables[0]),
        is_run(txns, tables),
        before.pmem,
        txns.last().next_step(tables.last()).action is Done,
    ensures
        ({
            let end = txns.last().next_step(tables.last());
            let own = end.txns.infos[txn.info.0 as int];
            &&& own.committed
            &&& own.persisted
            &&& forall|k: u32| #[trigger]
                txns[0].deps.contains_key(k) ==> end.txns.infos[txns[0].deps[k].0 as int].persisted
            &&& end.txn == (TxnView {
                status: TxState::PERSIST,
                phase: txn.phase,
                callers: txn.callers,
                ..txns[0]
            })
        }),
{
    law_calls_keep_order(txn, piece, before);
    law_others_keep_order(txn.piece_step(piece, before).txn, before, tables[0]);
    lemma_lone_run(txns, tables, (txns.len() - 1) as nat);
    assert(txn.phase is Running ==> txn.callers.push(txn.phase).drop_last() =~= txn.callers);
}

} // verus!
