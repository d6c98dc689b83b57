//! Laws of pieces under optimistic concurrency control: what a piece sees, what
//! others see of it, and when two pieces stand in each other's way.

use vstd::prelude::*;

use crate::laws::execution::table_grows;
use crate::parnvm::nvm_txn::TxnView;
use crate::parnvm::nvm_txn_occ::{
    all_committed, all_locked, all_unlocked, can_commit, can_lock, pending_access, read_version,
    reads_current, tagged, tags_wf, wrote, OccView, PieceActionView, PieceStep,
};
use crate::tcore::{next_version, store_wf, ObjectId, TBox, TObject, TTag};
use crate::txn::{Tid, TxnRef, TxnTableView};

verus! {

/// One object before and after a step of any transaction: it keeps its data, or it
/// gets the next version.
pub open spec fn box_step<T>(before: TBox<T>, after: TBox<T>) -> bool {
    ||| after.version == before.version && after.data == before.data
    ||| after.version == next_version(before.version)
}

/// All objects before and after a step of any transaction.
pub open spec fn store_step<T>(before: Seq<TBox<T>>, after: Seq<TBox<T>>) -> bool {
    &&& before.len() <= after.len()
    &&& forall|o: int| 0 <= o < before.len() ==> box_step(before[o], #[trigger] after[o])
}

/// The objects at `i` and right after it.
pub open spec fn history_step<T>(history: Seq<Seq<TBox<T>>>, i: int) -> bool {
    store_step(history[i], history[i + 1])
}

/// The objects over time, one step of some transaction after the other.
pub open spec fn is_history<T>(history: Seq<Seq<TBox<T>>>) -> bool {
    &&& history.len() > 0
    &&& forall|i: int| 0 <= i < history.len() - 1 ==> #[trigger] history_step(history, i)
}

/// How often object `o` was written in the first `n` steps.
pub open spec fn write_count<T>(history: Seq<Seq<TBox<T>>>, o: int, n: nat) -> nat
    decreases n,
{
    if n == 0 {
        0
    } else {
        write_count(history, o, (n - 1) as nat) + if history[n as int][o].version == history[n
            - 1][o].version {
            0nat
        } else {
            1nat
        }
    }
}

proof fn lemma_versions_count<T>(history: Seq<Seq<TBox<T>>>, o: int, n: nat)
    requires
        is_history(history),
        n < history.len(),
        0 <= o < history[0].len(),
    ensures
        o < history[n as int].len(),
        write_count(history, o, n) <= n,
        history[n as int][o].version == (history[0][o].version + write_count(history, o, n))
            % 0x1_0000_0000_0000_0000,
        write_count(history, o, n) == 0 ==> history[n as int][o].data == history[0][o].data,
    decreases n,
{
    if n > 0 {
        lemma_versions_count(history, o, (n - 1) as nat);
        assert(history_step(history, n - 1));
        assert(box_step(history[n - 1][o], history[n as int][o]));
    }
}

proof fn lemma_write_count_grows<T>(history: Seq<Seq<TBox<T>>>, o: int, m: nat, n: nat)
    requires
        m <= n,
    ensures
        write_count(history, o, m) <= write_count(history, o, n),
    decreases n,
{
    if m < n {
        lemma_write_count_grows(history, o, m, (n - 1) as nat);
    }
}

/// A commit, failed or not, is a step of the objects.
pub proof fn law_commit_is_a_step<T>(
    tags: Map<ObjectId, TTag<T>>,
    objects: Seq<TBox<T>>,
    id: Tid,
    info: TxnRef,
)
    ensures
        store_step(objects, all_committed(tags, objects, id, info)),
        store_step(objects, all_unlocked(tags, objects)),
{
}

/// So is every step of a commit that takes several.
pub proof fn law_every_step_of_a_commit_is_a_step<T>(
    txn: OccView<T>,
    rank: usize,
    again: bool,
    objects: Seq<TBox<T>>,
    txns: TxnTableView,
    step: PieceStep<T>,
)
    requires
        txn.tries_to(rank, again, objects, txns, step) || txn.steps_to(objects, txns, step),
    ensures
        store_step(objects, step.objects),
{
}

/// So is everything else that can happen to an object, and the making of a new one.
pub proof fn law_every_change_is_a_step<T>(
    objects: Seq<TBox<T>>,
    created: TBox<T>,
    o: int,
    val: T,
    id: Tid,
    info: TxnRef,
)
    requires
        0 <= o < objects.len(),
    ensures
        store_step(objects, objects.push(created)),
        store_step(objects, objects.update(o, objects[o].locked(id))),
        store_step(objects, objects.update(o, objects[o].unlocked())),
        store_step(objects, objects.update(o, objects[o].installed(val, id))),
        store_step(objects, objects.update(o, objects[o].accessed_by(info))),
{
}

/// What refers to objects and transactions stays valid when there are more of them.
pub proof fn law_references_stay_valid<T>(
    txn: OccView<T>,
    objects: Seq<TBox<T>>,
    more_objects: Seq<TBox<T>>,
    txns: TxnTableView,
    more_txns: TxnTableView,
)
    requires
        txn.wf(objects, txns),
        store_wf(objects, txns),
        objects.len() <= more_objects.len(),
        table_grows(txns, more_txns),
    ensures
        txn.wf(more_objects, more_txns),
        store_wf(objects, more_txns),
{
}

/// The version of an object tells its data apart: if it is the same at the two ends
/// of a history of fewer than two to the sixty-fourth steps, the data never changed
/// in between.
pub proof fn law_same_version_same_data<T>(history: Seq<Seq<TBox<T>>>, o: int)
    requires
        is_history(history),
        history.len() <= 0x1_0000_0000_0000_0000,
        0 <= o < history[0].len(),
        history.last()[o].version == history[0][o].version,
    ensures
        forall|i: int|
            0 <= i < history.len() ==> (#[trigger] history[i])[o].data == history[0][o].data,
{
    let n = (history.len() - 1) as nat;
    lemma_versions_count(history, o, n);
    assert forall|i: int| 0 <= i < history.len() implies (#[trigger] history[i])[o].data
        == history[0][o].data by {
        lemma_write_count_grows(history, o, i as nat, n);
        lemma_versions_count(history, o, i as nat);
    }
}

/// What a committing piece read is true when it commits: an object that it first
/// read at the beginning of the history has kept its data all the time.
pub proof fn law_committed_reads_are_current<T>(
    tags: Map<ObjectId, TTag<T>>,
    history: Seq<Seq<TBox<T>>>,
    me: Tid,
    o: int,
)
    requires
        is_history(history),
        history.len() <= 0x1_0000_0000_0000_0000,
        0 <= o < history[0].len(),
        read_version(tags, o) == Some(history[0][o].version),
        can_commit(tags, history.last(), me),
    ensures
        forall|i: int|
            0 <= i < history.len() ==> (#[trigger] history[i])[o].data == history[0][o].data,
{
    lemma_versions_count(history, o, (history.len() - 1) as nat);
    assert(history.last()[o].version == read_version(tags, o)->0);
    law_same_version_same_data(history, o);
}

/// A piece that has read an object which somebody wrote since does not commit.
pub proof fn law_stale_read_aborts<T>(
    tags: Map<ObjectId, TTag<T>>,
    history: Seq<Seq<TBox<T>>>,
    me: Tid,
    o: int,
    i: int,
)
    requires
        is_history(history),
        history.len() <= 0x1_0000_0000_0000_0000,
        0 <= o < history[0].len(),
        read_version(tags, o) == Some(history[0][o].version),
        0 <= i < history.len() - 1,
        history[i + 1][o].version != history[i][o].version,
    ensures
        !can_commit(tags, history.last(), me),
{
    let n = (history.len() - 1) as nat;
    lemma_versions_count(history, o, n);
    lemma_write_count_grows(history, o, (i + 1) as nat, n);
    assert(history.last()[o].version != read_version(tags, o)->0);
}

/// A commit writes an object: its version is another one afterwards.
pub proof fn law_commit_changes_version<T>(
    tags: Map<ObjectId, TTag<T>>,
    objects: Seq<TBox<T>>,
    id: Tid,
    info: TxnRef,
    o: int,
)
    requires
        tags_wf(tags, objects),
        0 <= o < objects.len(),
    ensures
        wrote(tags, o) <==> all_committed(tags, objects, id, info)[o].version != objects[o].version,
{
    if tagged(tags, o) {
        assert(tags.contains_key(o as usize));
    }
}

/// A piece sees what it wrote itself, whatever is in the object.
pub proof fn law_reads_own_write<T>(txn: OccView<T>, tobj: TObject, val: T, objects: Seq<TBox<T>>)
    ensures
        txn.after_write(tobj, val).sees(tobj, objects) == val,
{
}

/// Reading does not change what the piece sees, and writing one object does not
/// change what it sees in another.
pub proof fn law_accesses_are_apart<T>(
    txn: OccView<T>,
    tobj: TObject,
    other: TObject,
    val: T,
    objects: Seq<TBox<T>>,
)
    ensures
        txn.after_read(other, objects).sees(tobj, objects) == txn.sees(tobj, objects),
        other.id != tobj.id ==> txn.after_write(other, val).sees(tobj, objects) == txn.sees(
            tobj,
            objects,
        ),
{
}

/// A read is noted with the version that the object has, and the version of the
/// first read is the one that counts, whatever is read or written afterwards.
pub proof fn law_first_read_counts<T>(
    txn: OccView<T>,
    tobj: TObject,
    other: TObject,
    val: T,
    first: Seq<TBox<T>>,
    second: Seq<TBox<T>>,
)
    ensures
        read_version(txn.tags, tobj.id as int) is None ==> read_version(
            txn.after_read(tobj, first).tags,
            tobj.id as int,
        ) == Some(first[tobj.id as int].version),
        read_version(txn.tags, tobj.id as int) is Some ==> read_version(
            txn.after_read(other, second).tags,
            tobj.id as int,
        ) == read_version(txn.tags, tobj.id as int),
        read_version(txn.after_write(other, val).tags, tobj.id as int) == read_version(
            txn.tags,
            tobj.id as int,
        ),
{
}

/// After a commit everybody sees what the piece wrote, and the rest as it was.
pub proof fn law_commit_publishes<T>(
    txn: OccView<T>,
    reader: OccView<T>,
    tobj: TObject,
    objects: Seq<TBox<T>>,
)
    requires
        tags_wf(txn.tags, objects),
        tobj.id < objects.len(),
        !wrote(reader.tags, tobj.id as int),
    ensures
        reader.sees(tobj, all_committed(txn.tags, objects, txn.base.id, txn.base.info))
            == txn.sees(tobj, objects),
{
}

/// After a failed commit every object has the data and the version that it had.
pub proof fn law_abort_drops_writes<T>(tags: Map<ObjectId, TTag<T>>, objects: Seq<TBox<T>>)
    ensures
        all_unlocked(tags, objects).len() == objects.len(),
        forall|o: int|
            0 <= o < objects.len() ==> {
                &&& (#[trigger] all_unlocked(tags, objects)[o]).data == objects[o].data
                &&& all_unlocked(tags, objects)[o].version == objects[o].version
            },
{
}

/// After a commit, failed or not, a piece starts afresh: it sees what is in the
/// store, and it can commit at once.
pub proof fn law_next_round_starts_afresh<T>(
    txn: OccView<T>,
    objects: Seq<TBox<T>>,
    txns: TxnTableView,
    step: PieceStep<T>,
    rank: usize,
    again: bool,
    tobj: TObject,
)
    requires
        txn.steps_to(objects, txns, step) || txn.tries_to(rank, again, objects, txns, step),
        step.txn.at_work(),
    ensures
        step.txn.sees(tobj, step.objects) == step.objects[tobj.id as int].data,
        can_commit(step.txn.tags, step.objects, step.txn.base.id),
{
}

/// A piece that read nothing is not kept from committing by another's commit, and
/// of two pieces that write an object the one that commits last prevails.
pub proof fn law_last_commit_prevails<T>(
    first: OccView<T>,
    second: OccView<T>,
    objects: Seq<TBox<T>>,
    tobj: TObject,
)
    requires
        tags_wf(first.tags, objects),
        tags_wf(second.tags, objects),
        tobj.id < objects.len(),
        forall|o: int| #[trigger] read_version(second.tags, o) is None,
        can_commit(first.tags, objects, first.base.id),
        can_commit(second.tags, objects, second.base.id),
        wrote(second.tags, tobj.id as int),
    ensures
        ({
            let between = all_committed(first.tags, objects, first.base.id, first.base.info);
            let after = all_committed(second.tags, between, second.base.id, second.base.info);
            &&& can_commit(second.tags, between, second.base.id)
            &&& after[tobj.id as int].data == second.sees(tobj, objects)
        }),
{
    let between = all_committed(first.tags, objects, first.base.id, first.base.info);
    assert forall|o: int| 0 <= o < between.len() && wrote(second.tags, o) implies (
    #[trigger] between[o]).lockable(second.base.id) by {
        assert(objects[o].lockable(second.base.id));
    }
}

/// Pieces that only read do not disturb anyone: their commit does not change
/// whether another piece can commit, and no lock keeps them from it.
pub proof fn law_readers_do_not_disturb<T>(
    reader: OccView<T>,
    tags: Map<ObjectId, TTag<T>>,
    objects: Seq<TBox<T>>,
    me: Tid,
)
    requires
        forall|o: int| !(#[trigger] wrote(reader.tags, o)),
    ensures
        can_lock(reader.tags, objects, reader.base.id),
        can_commit(
            tags,
            all_committed(reader.tags, objects, reader.base.id, reader.base.info),
            me,
        ) == can_commit(tags, objects, me),
{
    let after = all_committed(reader.tags, objects, reader.base.id, reader.base.info);
    assert forall|o: int| 0 <= o < objects.len() implies {
        &&& (#[trigger] after[o]).owner == objects[o].owner
        &&& after[o].version == objects[o].version
    } by {
        assert(!wrote(reader.tags, o));
    }
    assert(can_lock(tags, after, me) == can_lock(tags, objects, me)) by {
        assert forall|o: int| 0 <= o < objects.len() implies (#[trigger] objects[o]).lockable(me)
            == after[o].lockable(me) by {}
    }
    assert(reads_current(tags, after) == reads_current(tags, objects)) by {
        assert forall|o: int| 0 <= o < objects.len() implies (#[trigger] objects[o]).version
            == after[o].version by {}
    }
}

/// A piece does not commit while another transaction holds the lock of an object
/// that it wrote; in particular two transactions cannot both have locked it.
pub proof fn law_locks_exclude<T>(
    tags: Map<ObjectId, TTag<T>>,
    objects: Seq<TBox<T>>,
    me: Tid,
    holder_tags: Map<ObjectId, TTag<T>>,
    holder: Tid,
    o: int,
)
    requires
        0 <= o < objects.len(),
        wrote(tags, o),
        holder != me,
    ensures
        objects[o].owner == Some(holder) ==> !can_commit(tags, objects, me),
        wrote(holder_tags, o) ==> !can_commit(tags, all_locked(holder_tags, objects, holder), me),
{
    assert(objects[o].owner == Some(holder) ==> !objects[o].lockable(me));
    let held = all_locked(holder_tags, objects, holder);
    assert(wrote(holder_tags, o) ==> !held[o].lockable(me));
}

/// No commit leaves an object locked that its piece wrote, and none changes the
/// lock of any other object. A successful commit frees no lock of another
/// transaction.
pub proof fn law_locks_after_commit<T>(txn: OccView<T>, objects: Seq<TBox<T>>, o: int)
    requires
        tags_wf(txn.tags, objects),
        0 <= o < objects.len(),
    ensures
        ({
            let committed = all_committed(txn.tags, objects, txn.base.id, txn.base.info);
            let aborted = all_unlocked(txn.tags, objects);
            &&& wrote(txn.tags, o) ==> committed[o].owner is None && aborted[o].owner is None
            &&& !wrote(txn.tags, o) ==> committed[o].owner == objects[o].owner && aborted[o].owner
                == objects[o].owner
            &&& can_commit(txn.tags, objects, txn.base.id) && objects[o].owner is Some
                && objects[o].owner != Some(txn.base.id) ==> committed[o].owner == objects[o].owner
        }),
{
    assert(can_lock(txn.tags, objects, txn.base.id) && wrote(txn.tags, o) ==> objects[o].lockable(
        txn.base.id,
    ));
}

/// A transaction whose piece can commit keeps the dependencies that it had and depends
/// on every transaction, not committed yet, that last accessed one of the piece's
/// objects. Once the piece has committed, it is itself the last to have accessed
/// them.
pub proof fn law_commit_orders_transactions<T>(
    txn: OccView<T>,
    rank: usize,
    again: bool,
    objects: Seq<TBox<T>>,
    txns: TxnTableView,
    step: PieceStep<T>,
    o: int,
)
    requires
        txn.tries_to(rank, again, objects, txns, step),
        can_commit(txn.tags, objects, txn.base.id),
        0 <= o < objects.len(),
        tagged(txn.tags, o),
    ensures
        !txns.pmem ==> step.objects[o].writer_info == Some(txn.base.info),
        objects[o].writer_info is Some && !txns.at(objects[o].writer_info->0).committed
            ==> step.txn.base.deps.contains_key(txns.at(objects[o].writer_info->0).tid.0),
        txn.base.deps.submap_of(step.txn.base.deps),
{
    if objects[o].writer_info is Some && !txns.at(objects[o].writer_info->0).committed {
        let r = objects[o].writer_info->0;
        assert(pending_access(txn.tags, objects, txns, r, txns.at(r).tid.0));
    }
}

/// The log of a piece comes first: while it is being written, every object has the
/// data and the version that it had, and the written ones are locked.
pub proof fn law_log_comes_first<T>(
    txn: OccView<T>,
    rank: usize,
    again: bool,
    objects: Seq<TBox<T>>,
    txns: TxnTableView,
    step: PieceStep<T>,
)
    requires
        txn.tries_to(rank, again, objects, txns, step),
        step.action is Log,
    ensures
        step.objects.len() == objects.len(),
        forall|o: int|
            0 <= o < objects.len() ==> {
                &&& (#[trigger] step.objects[o]).data == objects[o].data
                &&& step.objects[o].version == objects[o].version
                &&& wrote(txn.tags, o) ==> step.objects[o].owner == Some(txn.base.id)
            },
{
}

/// A durable commit, left to itself, has the log written, installs, has the ranges
/// flushed and the commit record written, and ends where a commit at once ends, with
/// the records gone.
pub proof fn law_durable_commit_goes_all_the_way<T>(
    txn: OccView<T>,
    rank: usize,
    again: bool,
    objects: Seq<TBox<T>>,
    txns: TxnTableView,
    logging: PieceStep<T>,
    flushing: PieceStep<T>,
    recording: PieceStep<T>,
    closing: PieceStep<T>,
)
    requires
        txn.tries_to(rank, again, objects, txns, logging),
        logging.action is Log,
        logging.txn.steps_to(logging.objects, logging.txns, flushing),
        flushing.txn.steps_to(flushing.objects, flushing.txns, recording),
        recording.txn.steps_to(recording.objects, recording.txns, closing),
    ensures
        flushing.action is Flush,
        recording.action == PieceActionView::PersistCommit(txn.base.id.0),
        closing.action == OccView::<T>::closing(again),
        flushing.txns == txns && recording.txns == txns,
        closing.txns == txn.table_done(rank, txns),
        closing.objects == all_committed(txn.tags, objects, txn.base.id, txn.base.info),
        closing.txn == (OccView {
            base: TxnView { deps: logging.txn.base.deps, records: Seq::empty(), ..txn.base },
            ..txn.closed(rank, again)
        }),
        forall|o: int|
            0 <= o < objects.len() && wrote(txn.tags, o) ==> (
            #[trigger] recording.objects[o]).owner == Some(txn.base.id),
{
    assert(closing.objects =~= all_committed(txn.tags, objects, txn.base.id, txn.base.info));
}

/// While a transaction holds the lock of an object, no other transaction's successful
/// commit changes the object's data, version or lock.
pub proof fn law_locked_objects_are_left_alone<T>(
    other: OccView<T>,
    rank: usize,
    again: bool,
    objects: Seq<TBox<T>>,
    txns: TxnTableView,
    step: PieceStep<T>,
    holder: Tid,
    o: int,
)
    requires
        other.tries_to(rank, again, objects, txns, step),
        can_commit(other.tags, objects, other.base.id),
        0 <= o < objects.len(),
        objects[o].owner == Some(holder),
        holder != other.base.id,
    ensures
        step.objects[o].data == objects[o].data,
        step.objects[o].version == objects[o].version,
        step.objects[o].owner == Some(holder),
{
    assert(wrote(other.tags, o) ==> objects[o].lockable(other.base.id));
}

/// A piece that is run over and over is run again exactly as long as it commits.
pub proof fn law_piece_runs_as_long_as_it_commits<T>(
    txn: OccView<T>,
    objects: Seq<TBox<T>>,
    txns: TxnTableView,
    step: PieceStep<T>,
)
    requires
        txn.stage is Running,
        txn.steps_to(objects, txns, step),
    ensures
        can_commit(txn.tags, objects, txn.base.id) && !txns.pmem <==> step.action is Run,
        can_commit(txn.tags, objects, txn.base.id) && txns.pmem <==> step.action is Log,
        !can_commit(txn.tags, objects, txn.base.id) <==> step.action is Aborted,
        step.action is Run ==> step.txn.stage == txn.stage,
        step.action is Aborted ==> step.txn.stage is Open,
{
}

} // verus!
