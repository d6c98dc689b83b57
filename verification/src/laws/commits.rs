//! Laws of the commit of an optimistic piece, at once or in steps: when it succeeds, and
//! what becomes of the objects, the table and the transaction. They speak of the
//! objects, the entries and the tags themselves.

use vstd::prelude::*;

use crate::parnvm::nvm_txn::TxnView;
use crate::parnvm::nvm_txn_occ::{
    pending_access, read_version, tagged, wrote, OccView, PieceActionView, PieceStep, Stage,
};
use crate::plog::DataRecord;
use crate::tcore::{ObjectId, TBox, WriteSlot};
use crate::txn::{TxnInfo, TxnRef, TxnTableView};

verus! {

/// The piece has a value of its own for object `o`, in the object or not.
pub open spec fn has_value<T>(txn: OccView<T>, o: ObjectId) -> bool {
    txn.tags.contains_key(o) && !(txn.tags[o].write is Clean)
}

/// Object `o` keeps the piece from committing: the piece wrote it and another
/// transaction holds its lock, or the piece read it and its version is another one now.
pub open spec fn in_the_way<T>(txn: OccView<T>, objects: Seq<TBox<T>>, o: ObjectId) -> bool {
    &&& txn.tags.contains_key(o)
    &&& o < objects.len()
    &&& {
        ||| !(txn.tags[o].write is Clean) && objects[o as int].owner is Some
            && objects[o as int].owner->0 != txn.base.id
        ||| txn.tags[o].vers is Some && txn.tags[o].vers->0 != objects[o as int].version
    }
}

/// `r` has not committed and was the last to access object `o`, which the piece touched.
pub open spec fn comes_before<T>(
    txn: OccView<T>,
    objects: Seq<TBox<T>>,
    txns: TxnTableView,
    r: TxnRef,
    o: ObjectId,
) -> bool {
    &&& txn.tags.contains_key(o)
    &&& o < objects.len()
    &&& objects[o as int].writer_info == Some(r)
    &&& !txns.infos[r.0 as int].committed
}

/// A try to commit fails exactly if some object is in the way. Otherwise the piece has
/// committed at once, and is done with or runs again; or, on persistent memory, its log
/// is to be written.
pub proof fn law_commit_fails_exactly_on_conflict<T>(
    txn: OccView<T>,
    rank: usize,
    again: bool,
    objects: Seq<TBox<T>>,
    txns: TxnTableView,
    step: PieceStep<T>,
)
    requires
        txn.tries_to(rank, again, objects, txns, step),
        objects.len() <= usize::MAX,
    ensures
        ({
            let conflict = exists|o: ObjectId| #[trigger] in_the_way(txn, objects, o);
            if conflict {
                step.action is Aborted
            } else if txns.pmem {
                step.action is Log && step.txn.stage == (Stage::Logging { rank, again })
            } else if again {
                step.action is Run && step.txn.stage == (Stage::Running { rank })
            } else {
                step.action is Committed && step.txn.stage is Open
            }
        }),
{
    if step.action is Aborted {
        let o = choose|o: int|
            0 <= o < objects.len() && {
                ||| wrote(txn.tags, o) && !(#[trigger] objects[o]).lockable(txn.base.id)
                ||| read_version(txn.tags, o) is Some && objects[o].version != read_version(
                    txn.tags,
                    o,
                )->0
            };
        assert(in_the_way(txn, objects, o as usize));
    }
}

/// A piece that has committed at once leaves every object free that it wrote, with the
/// value that it wrote, under the next version and in its name; every object that it
/// only read as it was; both with the note that its transaction accessed them; and all
/// others untouched.
pub proof fn law_committed_values_are_in_place<T>(
    txn: OccView<T>,
    rank: usize,
    again: bool,
    objects: Seq<TBox<T>>,
    txns: TxnTableView,
    step: PieceStep<T>,
    o: ObjectId,
)
    requires
        txn.tries_to(rank, again, objects, txns, step),
        !(step.action is Aborted),
        !txns.pmem,
        o < objects.len(),
    ensures
        step.objects.len() == objects.len(),
        ({
            let (before, after) = (objects[o as int], step.objects[o as int]);
            if !txn.tags.contains_key(o) {
                after == before
            } else {
                &&& after.writer_info == Some(txn.base.info)
                &&& match txn.tags[o].write {
                    WriteSlot::Pending(val) => {
                        &&& after.data == val
                        &&& after.version == (before.version + 1) % 0x1_0000_0000_0000_0000
                        &&& after.last_writer == Some(txn.base.id)
                        &&& after.owner is None
                    },
                    WriteSlot::Clean => {
                        &&& after.data == before.data
                        &&& after.version == before.version
                        &&& after.last_writer == before.last_writer
                        &&& after.owner == before.owner
                    },
                    WriteSlot::Installed => {
                        &&& after.data == before.data
                        &&& after.version == before.version
                        &&& after.last_writer == before.last_writer
                        &&& after.owner is None
                    },
                }
            }
        }),
{
}

/// A piece that has committed at once has brought its transaction to its rank, whatever
/// the rank was before; nothing else of the table changes, and nothing of the
/// transaction but its dependencies.
pub proof fn law_commit_sets_rank<T>(
    txn: OccView<T>,
    rank: usize,
    again: bool,
    objects: Seq<TBox<T>>,
    txns: TxnTableView,
    step: PieceStep<T>,
)
    requires
        txn.tries_to(rank, again, objects, txns, step),
        !(step.action is Aborted),
        !txns.pmem,
        txns.valid(txn.base.info),
    ensures
        ({
            let own = txn.base.info.0 as int;
            &&& step.txns.infos[own].rank == rank
            &&& step.txns.infos[own] == (TxnInfo { rank, ..txns.infos[own] })
            &&& step.txns.infos.len() == txns.infos.len()
            &&& forall|i: int|
                0 <= i < txns.infos.len() && i != own ==> (#[trigger] step.txns.infos[i])
                    == txns.infos[i]
            &&& step.txns.success == txns.success
            &&& step.txns.pmem == txns.pmem
        }),
        step.txn.base == (TxnView { deps: step.txn.base.deps, ..txn.base }),
        step.txn.locks.len() == 0,
        forall|o: ObjectId| !(#[trigger] step.txn.tags.contains_key(o)),
{
}

/// A piece that is given up leaves all data, versions and notes as they were and frees
/// the objects that it wrote; the table and the transaction are as they were before the
/// piece, and nothing of the piece is left.
pub proof fn law_abort_leaves_no_trace<T>(
    txn: OccView<T>,
    rank: usize,
    again: bool,
    objects: Seq<TBox<T>>,
    txns: TxnTableView,
    step: PieceStep<T>,
    o: ObjectId,
)
    requires
        txn.tries_to(rank, again, objects, txns, step),
        step.action is Aborted,
        o < objects.len(),
    ensures
        step.objects.len() == objects.len(),
        step.objects[o as int] == (TBox {
            owner: if has_value(txn, o) {
                None
            } else {
                objects[o as int].owner
            },
            ..objects[o as int]
        }),
        step.txns == txns,
        step.txn.base == txn.base,
        step.txn.locks.len() == 0,
        step.txn.stage is Open,
        forall|p: ObjectId| !(#[trigger] step.txn.tags.contains_key(p)),
{
}

/// A transaction whose piece commits depends, besides on those on which it did, on
/// exactly those that come before it: each is entered under its identifier, and every
/// new entry is one of them.
pub proof fn law_commit_notes_who_comes_before<T>(
    txn: OccView<T>,
    rank: usize,
    again: bool,
    objects: Seq<TBox<T>>,
    txns: TxnTableView,
    step: PieceStep<T>,
    k: u32,
)
    requires
        txn.tries_to(rank, again, objects, txns, step),
        !(step.action is Aborted),
        objects.len() <= usize::MAX,
    ensures
        ({
            let (old_deps, deps) = (txn.base.deps, step.txn.base.deps);
            &&& old_deps.contains_key(k) ==> deps.contains_key(k) && deps[k] == old_deps[k]
            &&& deps.contains_key(k) && !old_deps.contains_key(k) ==> {
                &&& txns.infos[deps[k].0 as int].tid.0 == k
                &&& exists|o: ObjectId| #[trigger] comes_before(txn, objects, txns, deps[k], o)
            }
            &&& forall|r: TxnRef, o: ObjectId| #[trigger]
                comes_before(txn, objects, txns, r, o) ==> deps.contains_key(
                    txns.infos[r.0 as int].tid.0,
                )
        }),
{
    let (old_deps, deps) = (txn.base.deps, step.txn.base.deps);
    if deps.contains_key(k) && !old_deps.contains_key(k) {
        let r = deps[k];
        assert(pending_access(txn.tags, objects, txns, r, k));
        let o = choose|o: int|
            0 <= o < objects.len() && tagged(txn.tags, o) && (
            #[trigger] objects[o]).writer_info == Some(r);
        assert(comes_before(txn, objects, txns, r, o as usize));
    }
    assert forall|r: TxnRef, o: ObjectId| #[trigger]
        comes_before(txn, objects, txns, r, o) implies deps.contains_key(
        txns.infos[r.0 as int].tid.0,
    ) by {
        assert(tagged(txn.tags, o as int));
        assert(pending_access(
            txn.tags,
            objects,
            txns,
            r,
            txns.infos[r.0 as int].tid.0,
        ));
    }
}

/// The first step of a durable commit has one log entry for each record written, in
/// order and in the transaction's name; it locks the objects that the piece wrote, notes
/// each of them once, and changes nothing else: not the data, not the table, not the
/// tags and not the records.
pub proof fn law_durable_commit_logs_first<T>(
    txn: OccView<T>,
    rank: usize,
    again: bool,
    objects: Seq<TBox<T>>,
    txns: TxnTableView,
    step: PieceStep<T>,
    o: ObjectId,
)
    requires
        txn.tries_to(rank, again, objects, txns, step),
        step.action is Log,
        o < objects.len(),
    ensures
        ({
            let (logs, records) = (step.action->Log_0, txn.base.records);
            &&& logs.len() == records.len()
            &&& forall|i: int|
                0 <= i < records.len() ==> {
                    &&& (#[trigger] logs[i]).ptr == records[i].ptr
                    &&& logs[i].layout == records[i].layout
                    &&& logs[i].id == txn.base.id
                }
        }),
        step.objects.len() == objects.len(),
        step.objects[o as int] == (TBox {
            owner: if has_value(txn, o) {
                Some(txn.base.id)
            } else {
                objects[o as int].owner
            },
            ..objects[o as int]
        }),
        step.txn.locks.no_duplicates(),
        step.txn.locks.contains(o) <==> has_value(txn, o),
        step.txns == txns,
        step.txn.tags == txn.tags,
        step.txn.base == (TxnView { deps: step.txn.base.deps, ..txn.base }),
{
}

/// Once the log of a piece is written, its values go into their objects, which stay
/// locked, and the ranges of all records with an address are flushed, in order. Nobody
/// sees any progress in the table yet, and the piece remembers what it wrote, so that
/// those objects can be freed.
pub proof fn law_durable_commit_installs_next<T>(
    txn: OccView<T>,
    objects: Seq<TBox<T>>,
    txns: TxnTableView,
    step: PieceStep<T>,
    o: ObjectId,
)
    requires
        txn.stage is Logging,
        txn.steps_to(objects, txns, step),
        o < objects.len(),
    ensures
        step.action is Flush,
        step.action->Flush_0 == txn.base.records.filter(|r: DataRecord| r.ptr is Some),
        step.txns == txns,
        step.txn.base == (TxnView { records: step.txn.base.records, ..txn.base }),
        step.txn.base.records.len() == 0,
        step.txn.locks == txn.locks,
        step.objects.len() == objects.len(),
        has_value(step.txn, o) <==> has_value(txn, o),
        step.txn.tags.contains_key(o) <==> txn.tags.contains_key(o),
        ({
            let (before, after) = (objects[o as int], step.objects[o as int]);
            if !txn.tags.contains_key(o) {
                after == before
            } else {
                &&& after.owner == before.owner
                &&& after.writer_info == Some(txn.base.info)
                &&& match txn.tags[o].write {
                    WriteSlot::Pending(val) => {
                        &&& after.data == val
                        &&& after.version == (before.version + 1) % 0x1_0000_0000_0000_0000
                        &&& after.last_writer == Some(txn.base.id)
                        &&& step.txn.tags[o].write is Installed
                    },
                    _ => {
                        &&& after.data == before.data
                        &&& after.version == before.version
                        &&& after.last_writer == before.last_writer
                        &&& step.txn.tags[o] == txn.tags[o]
                    },
                }
            }
        }),
{
}

/// Once the ranges are flushed, the commit record of the transaction is asked for, and
/// nothing changes but the stage.
pub proof fn law_durable_commit_records_next<T>(
    txn: OccView<T>,
    objects: Seq<TBox<T>>,
    txns: TxnTableView,
    step: PieceStep<T>,
)
    requires
        txn.stage is Flushing,
        txn.steps_to(objects, txns, step),
    ensures
        step.action == PieceActionView::PersistCommit(txn.base.id.0),
        step.objects == objects,
        step.txns == txns,
        step.txn == (OccView { stage: step.txn.stage, ..txn }),
{
}

/// Once the commit record is written, the transaction has got to the rank of the piece,
/// whatever its rank was before, and the objects that the piece wrote are free with what
/// is in them; nothing else of the table, of the objects and of the transaction changes,
/// and nothing of the piece is left.
pub proof fn law_durable_commit_sets_rank_last<T>(
    txn: OccView<T>,
    rank: usize,
    again: bool,
    objects: Seq<TBox<T>>,
    txns: TxnTableView,
    step: PieceStep<T>,
    o: ObjectId,
)
    requires
        txn.stage == (Stage::Recording { rank, again }),
        txn.steps_to(objects, txns, step),
        txns.valid(txn.base.info),
        o < objects.len(),
    ensures
        ({
            let own = txn.base.info.0 as int;
            &&& step.txns.infos[own].rank == rank
            &&& step.txns.infos[own] == (TxnInfo { rank, ..txns.infos[own] })
            &&& step.txns.infos.len() == txns.infos.len()
            &&& forall|i: int|
                0 <= i < txns.infos.len() && i != own ==> (#[trigger] step.txns.infos[i])
                    == txns.infos[i]
            &&& step.txns.success == txns.success
            &&& step.txns.pmem == txns.pmem
        }),
        step.objects.len() == objects.len(),
        step.objects[o as int] == (TBox {
            owner: if has_value(txn, o) {
                None
            } else {
                objects[o as int].owner
            },
            ..objects[o as int]
        }),
        step.txn.base == txn.base,
        step.txn.locks.len() == 0,
        forall|p: ObjectId| !(#[trigger] step.txn.tags.contains_key(p)),
        if again {
            step.action is Run && step.txn.stage == (Stage::Running { rank })
        } else {
            step.action is Committed && step.txn.stage is Open
        },
{
}

/// However others change the objects and the table between the steps of a durable
/// commit, it goes through all of them: it ends with the transaction at the rank that it
/// was begun with, with the actions in their order, and with the objects free that the
/// piece wrote.
pub proof fn law_durable_commit_ends_at_its_rank<T>(
    txn: OccView<T>,
    rank: usize,
    again: bool,
    objects: Seq<Seq<TBox<T>>>,
    tables: Seq<TxnTableView>,
    steps: Seq<PieceStep<T>>,
    o: ObjectId,
)
    requires
        objects.len() == 4,
        tables.len() == 4,
        steps.len() == 4,
        txn.tries_to(rank, again, objects[0], tables[0], steps[0]),
        steps[0].action is Log,
        steps[0].txn.steps_to(objects[1], tables[1], steps[1]),
        steps[1].txn.steps_to(objects[2], tables[2], steps[2]),
        steps[2].txn.steps_to(objects[3], tables[3], steps[3]),
        tables[3].valid(txn.base.info),
        forall|i: int| 0 <= i < 4 ==> o < (#[trigger] objects[i]).len(),
    ensures
        steps[1].action is Flush,
        steps[2].action == PieceActionView::PersistCommit(txn.base.id.0),
        steps[3].action == if again {
            PieceActionView::Run
        } else {
            PieceActionView::Committed
        },
        forall|i: int| 0 <= i < 3 ==> (#[trigger] steps[i]).txns == tables[i],
        steps[3].txns.infos[txn.base.info.0 as int].rank == rank,
        has_value(txn, o) ==> steps[3].objects[o as int].owner is None,
        txn.tags.contains_key(o) && txn.tags[o].write is Pending ==> steps[1].objects[o as int].data
            == txn.tags[o].write->Pending_0,
{
    assert(o < objects[0].len() && o < objects[1].len() && o < objects[2].len() && o
        < objects[3].len());
    law_durable_commit_logs_first(txn, rank, again, objects[0], tables[0], steps[0], o);
    law_durable_commit_installs_next(steps[0].txn, objects[1], tables[1], steps[1], o);
    law_durable_commit_records_next(steps[1].txn, objects[2], tables[2], steps[2]);
    law_durable_commit_sets_rank_last(
        steps[2].txn,
        rank,
        again,
        objects[3],
        tables[3],
        steps[3],
        o,
    );
}

/// A piece may read and write again exactly after the actions that end a try or have its
/// work run.
pub proof fn law_pieces_work_between_commits<T>(
    txn: OccView<T>,
    rank: usize,
    again: bool,
    objects: Seq<TBox<T>>,
    txns: TxnTableView,
    step: PieceStep<T>,
)
    requires
        txn.tries_to(rank, again, objects, txns, step) || txn.steps_to(objects, txns, step),
    ensures
        step.txn.at_work() <==> {
            ||| step.action is Run
            ||| step.action is Committed
            ||| step.action is Aborted
        },
{
}

/// The rank of a piece that is run over and over is the one with which each of its tries
/// is made.
pub proof fn law_every_round_has_the_same_rank<T>(
    txn: OccView<T>,
    objects: Seq<TBox<T>>,
    txns: TxnTableView,
    step: PieceStep<T>,
)
    requires
        txn.stage is Running,
        txn.steps_to(objects, txns, step),
        txns.valid(txn.base.info),
    ensures
        step.action is Run ==> {
            &&& step.txn.stage == txn.stage
            &&& step.txns.infos[txn.base.info.0 as int].rank == txn.stage->Running_rank
        },
        step.action is Log ==> step.txn.stage == (Stage::Logging {
            rank: txn.stage->Running_rank,
            again: true,
        }),
        step.action is Run || step.action is Log || step.action is Aborted,
{
}

} // verus!
