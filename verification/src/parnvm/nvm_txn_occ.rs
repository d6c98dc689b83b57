//! Pieces under optimistic concurrency control: a piece notes what it reads and
//! keeps what it writes to itself, and its commit locks the objects it wrote,
//! checks that nobody changed the objects it read, and installs its writes.

use std::collections::HashMap;
use vstd::prelude::*;
use vstd::std_specs::iter::IteratorSpec;

use crate::parnvm::nvm_txn::{addressed, TransactionPar, TransactionParBase, TxnView};
use crate::piece::Piece;
use crate::plog::{DataRecord, PLog};
use crate::tcore::{store_wf, ObjectId, ObjectStore, TBox, TObject, TTag, WriteSlot};
use crate::txn::{AbortReason, Tid, TxnInfo, TxnRef, TxnTable, TxnTableView};

verus! {

broadcast use vstd::std_specs::hash::group_hash_axioms;

/// The piece has a tag for object `o`.
pub open spec fn tagged<T>(tags: Map<ObjectId, TTag<T>>, o: int) -> bool {
    0 <= o <= usize::MAX && tags.contains_key(o as usize)
}

/// The piece has written object `o`.
pub open spec fn wrote<T>(tags: Map<ObjectId, TTag<T>>, o: int) -> bool {
    tagged(tags, o) && tags[o as usize].wrote()
}

/// The version under which the piece read object `o`, if it did.
pub open spec fn read_version<T>(tags: Map<ObjectId, TTag<T>>, o: int) -> Option<u64> {
    if tagged(tags, o) {
        tags[o as usize].vers
    } else {
        None
    }
}

/// The tag of an object, which is empty as long as the piece has not touched it.
pub open spec fn tag_of<T>(tags: Map<ObjectId, TTag<T>>, tobj: TObject) -> TTag<T> {
    if tags.contains_key(tobj.id) {
        tags[tobj.id]
    } else {
        TTag { tobj, vers: None, write: WriteSlot::Clean }
    }
}

/// The tags are those of objects of `objects`.
pub open spec fn tags_within<T>(tags: Map<ObjectId, TTag<T>>, objects: Seq<TBox<T>>) -> bool {
    forall|o: ObjectId| #[trigger]
        tags.contains_key(o) ==> o < objects.len() && tags[o].tobj.id == o
}

/// The tags are those of objects of `objects`, and none is installed yet.
pub open spec fn tags_wf<T>(tags: Map<ObjectId, TTag<T>>, objects: Seq<TBox<T>>) -> bool {
    &&& tags_within(tags, objects)
    &&& forall|o: ObjectId| #[trigger] tags.contains_key(o) ==> tags[o].write !is Installed
}

/// `locks` names exactly the objects that the piece wrote, each once.
pub open spec fn locks_noted<T>(tags: Map<ObjectId, TTag<T>>, locks: Seq<ObjectId>) -> bool {
    &&& locks.no_duplicates()
    &&& forall|o: ObjectId| #[trigger] locks.contains(o) <==> wrote(tags, o as int)
}

/// No other transaction holds the lock of an object that the piece wrote.
pub open spec fn can_lock<T>(
    tags: Map<ObjectId, TTag<T>>,
    objects: Seq<TBox<T>>,
    me: Tid,
) -> bool {
    forall|o: int|
        0 <= o < objects.len() && wrote(tags, o) ==> (#[trigger] objects[o]).lockable(me)
}

/// Every object that the piece read still has the version that it read.
pub open spec fn reads_current<T>(tags: Map<ObjectId, TTag<T>>, objects: Seq<TBox<T>>) -> bool {
    forall|o: int|
        0 <= o < objects.len() && read_version(tags, o) is Some ==> (
        #[trigger] objects[o]).version == read_version(tags, o)->0
}

/// A commit of the piece succeeds.
pub open spec fn can_commit<T>(
    tags: Map<ObjectId, TTag<T>>,
    objects: Seq<TBox<T>>,
    me: Tid,
) -> bool {
    can_lock(tags, objects, me) && reads_current(tags, objects)
}

/// The objects with the written ones locked by `me`.
pub open spec fn all_locked<T>(
    tags: Map<ObjectId, TTag<T>>,
    objects: Seq<TBox<T>>,
    me: Tid,
) -> Seq<TBox<T>> {
    Seq::new(
        objects.len(),
        |o: int|
            if wrote(tags, o) {
                objects[o].locked(me)
            } else {
                objects[o]
            },
    )
}

/// The objects with the written ones free.
pub open spec fn all_unlocked<T>(
    tags: Map<ObjectId, TTag<T>>,
    objects: Seq<TBox<T>>,
) -> Seq<TBox<T>> {
    Seq::new(
        objects.len(),
        |o: int|
            if wrote(tags, o) {
                objects[o].unlocked()
            } else {
                objects[o]
            },
    )
}

/// An object once its tag has been installed.
pub open spec fn box_installed<T>(tbox: TBox<T>, tag: TTag<T>, id: Tid, info: TxnRef) -> TBox<T> {
    match tag.write {
        WriteSlot::Pending(v) => tbox.installed(v, id).accessed_by(info),
        _ => tbox.accessed_by(info),
    }
}

/// The objects with the pending values in them, and the touched ones marked as
/// accessed by the transaction.
pub open spec fn all_installed<T>(
    tags: Map<ObjectId, TTag<T>>,
    objects: Seq<TBox<T>>,
    id: Tid,
    info: TxnRef,
) -> Seq<TBox<T>> {
    Seq::new(
        objects.len(),
        |o: int|
            if tagged(tags, o) {
                box_installed(objects[o], tags[o as usize], id, info)
            } else {
                objects[o]
            },
    )
}

/// The tags once their pending values are in the objects.
pub open spec fn tags_installed<T>(tags: Map<ObjectId, TTag<T>>) -> Map<ObjectId, TTag<T>> {
    tags.map_values(
        |tag: TTag<T>|
            if tag.write is Pending {
                TTag { write: WriteSlot::Installed, ..tag }
            } else {
                tag
            },
    )
}

/// The objects after a successful commit.
pub open spec fn all_committed<T>(
    tags: Map<ObjectId, TTag<T>>,
    objects: Seq<TBox<T>>,
    id: Tid,
    info: TxnRef,
) -> Seq<TBox<T>> {
    all_unlocked(tags, all_installed(tags, objects, id, info))
}

/// `r` is the transaction, known as `k` and not committed yet, that last accessed
/// an object the piece touched.
pub open spec fn pending_access<T>(
    tags: Map<ObjectId, TTag<T>>,
    objects: Seq<TBox<T>>,
    txns: TxnTableView,
    r: TxnRef,
    k: u32,
) -> bool {
    &&& !txns.at(r).committed
    &&& txns.at(r).tid.0 == k
    &&& exists|o: int|
        0 <= o < objects.len() && tagged(tags, o) && (#[trigger] objects[o]).writer_info == Some(r)
}

/// `after` is `before` and, for every transaction that the piece must wait for, an
/// entry under its identifier; which one, if several go by the same identifier, is
/// open.
pub open spec fn deps_extended<T>(
    before: Map<u32, TxnRef>,
    after: Map<u32, TxnRef>,
    tags: Map<ObjectId, TTag<T>>,
    objects: Seq<TBox<T>>,
    txns: TxnTableView,
) -> bool {
    &&& forall|k: u32| #[trigger]
        before.contains_key(k) ==> after.contains_key(k) && after[k] == before[k]
    &&& forall|k: u32| #[trigger]
        after.contains_key(k) && !before.contains_key(k) ==> pending_access(
            tags,
            objects,
            txns,
            after[k],
            k,
        )
    &&& forall|r: TxnRef, k: u32| #[trigger]
        pending_access(tags, objects, txns, r, k) ==> after.contains_key(k)
}

/// What the objects may be after locking was given up: of those that the piece
/// wrote and could have locked, some are free now.
pub open spec fn lock_undone<T>(
    tags: Map<ObjectId, TTag<T>>,
    before: Seq<TBox<T>>,
    after: Seq<TBox<T>>,
    me: Tid,
) -> bool {
    &&& after.len() == before.len()
    &&& forall|o: int|
        0 <= o < before.len() ==> (#[trigger] after[o]) == before[o] || {
            &&& wrote(tags, o)
            &&& before[o].lockable(me)
            &&& after[o] == before[o].unlocked()
        }
}

/// `ids` names every object that has a tag, once.
spec fn walks<T>(ids: Seq<ObjectId>, tags: Map<ObjectId, TTag<T>>) -> bool {
    &&& ids.no_duplicates()
    &&& ids.to_set() == tags.dom()
}

/// The tags of the first `i` objects of a walk.
spec fn walked<T>(ids: Seq<ObjectId>, tags: Map<ObjectId, TTag<T>>, i: int) -> Map<
    ObjectId,
    TTag<T>,
> {
    tags.restrict(ids.take(i).to_set())
}

proof fn lemma_walk_ends<T>(ids: Seq<ObjectId>, tags: Map<ObjectId, TTag<T>>)
    requires
        walks(ids, tags),
    ensures
        walked(ids, tags, 0) == Map::<ObjectId, TTag<T>>::empty(),
        walked(ids, tags, ids.len() as int) == tags,
{
    assert(walked(ids, tags, 0) =~= Map::empty());
    assert(ids.take(ids.len() as int) =~= ids);
    assert(walked(ids, tags, ids.len() as int) =~= tags);
}

proof fn lemma_walk_step<T>(ids: Seq<ObjectId>, tags: Map<ObjectId, TTag<T>>, i: int)
    requires
        walks(ids, tags),
        0 <= i < ids.len(),
    ensures
        tags.contains_key(ids[i]),
        !walked(ids, tags, i).contains_key(ids[i]),
        walked(ids, tags, i + 1) == walked(ids, tags, i).insert(ids[i], tags[ids[i]]),
{
    assert(ids.to_set().contains(ids[i]));
    let prev = ids.take(i);
    let next = ids.take(i + 1);
    assert(next.to_set() =~= prev.to_set().insert(ids[i])) by {
        assert forall|o: ObjectId| next.contains(o) implies prev.contains(o) || o == ids[i] by {
            let j = choose|j: int| 0 <= j < next.len() && next[j] == o;
            assert(j < i ==> prev[j] == o);
        }
        assert forall|o: ObjectId| prev.contains(o) || o == ids[i] implies next.contains(o) by {
            let j = if o == ids[i] {
                i
            } else {
                choose|j: int| 0 <= j < prev.len() && prev[j] == o
            };
            assert(next[j] == o);
        }
    }
    assert(walked(ids, tags, i + 1) =~= walked(ids, tags, i).insert(ids[i], tags[ids[i]]));
}

/// The objects with those of `held` free.
spec fn held_unlocked<T>(held: Seq<ObjectId>, objects: Seq<TBox<T>>) -> Seq<TBox<T>> {
    Seq::new(
        objects.len(),
        |o: int|
            if o <= usize::MAX && held.contains(o as usize) {
                objects[o].unlocked()
            } else {
                objects[o]
            },
    )
}

proof fn lemma_skip_contains(s: Seq<ObjectId>, n: int, o: ObjectId)
    requires
        0 < n <= s.len(),
    ensures
        s.skip(n - 1).contains(o) <==> o == s[n - 1] || s.skip(n).contains(o),
{
    let longer = s.skip(n - 1);
    let shorter = s.skip(n);
    if longer.contains(o) {
        let j = choose|j: int| 0 <= j < longer.len() && longer[j] == o;
        assert(j > 0 ==> shorter[j - 1] == o);
    }
    if shorter.contains(o) {
        let j = choose|j: int| 0 <= j < shorter.len() && shorter[j] == o;
        assert(longer[j + 1] == o);
    }
    assert(longer[0] == s[n - 1]);
}

proof fn lemma_pending_access_insert<T>(
    tags: Map<ObjectId, TTag<T>>,
    id: ObjectId,
    tag: TTag<T>,
    objects: Seq<TBox<T>>,
    txns: TxnTableView,
    r: TxnRef,
    k: u32,
)
    requires
        id < objects.len(),
    ensures
        pending_access(tags.insert(id, tag), objects, txns, r, k) <==> {
            ||| pending_access(tags, objects, txns, r, k)
            ||| objects[id as int].writer_info == Some(r) && !txns.at(r).committed && txns.at(
                r,
            ).tid.0 == k
        },
{
    let more = tags.insert(id, tag);
    assert forall|o: int| tagged(more, o) <==> tagged(tags, o) || o == id by {}
    if pending_access(tags, objects, txns, r, k) {
        let o = choose|o: int|
            0 <= o < objects.len() && tagged(tags, o) && (#[trigger] objects[o]).writer_info
                == Some(r);
        assert(tagged(more, o));
    }
    assert(tagged(more, id as int));
}

proof fn lemma_pending_access_alike<T>(
    tags: Map<ObjectId, TTag<T>>,
    objects: Seq<TBox<T>>,
    others: Seq<TBox<T>>,
    txns: TxnTableView,
    r: TxnRef,
    k: u32,
)
    requires
        objects.len() == others.len(),
        forall|o: int|
            0 <= o < objects.len() ==> (#[trigger] objects[o]).writer_info == others[o].writer_info,
    ensures
        pending_access(tags, objects, txns, r, k) <==> pending_access(tags, others, txns, r, k),
{
    if pending_access(tags, objects, txns, r, k) {
        let o = choose|o: int|
            0 <= o < objects.len() && tagged(tags, o) && (#[trigger] objects[o]).writer_info
                == Some(r);
        assert(others[o].writer_info == Some(r));
    }
    if pending_access(tags, others, txns, r, k) {
        let o = choose|o: int|
            0 <= o < others.len() && tagged(tags, o) && (#[trigger] others[o]).writer_info
                == Some(r);
        assert(objects[o].writer_info == Some(r));
    }
}

/// How far the commit of a piece has got.
#[derive(Clone, Copy, PartialEq, Eq, Structural, Debug)]
pub enum Stage {
    /// No commit is under way.
    Open,
    /// The work of a piece that is run over and over is running.
    Running { rank: usize },
    /// The piece can commit, and its log entries are being written; `again` tells
    /// whether its work is run again once it has committed.
    Logging { rank: usize, again: bool },
    /// The writes are installed, and the changed ranges are being flushed.
    Flushing { rank: usize, again: bool },
    /// The commit record is being written.
    Recording { rank: usize, again: bool },
}

/// What the driver of a piece does before it takes the next step.
pub enum PieceAction {
    /// Run the work of the piece.
    Run,
    /// Write these log entries.
    Log(Vec<PLog>),
    /// Flush these ranges.
    Flush(Vec<DataRecord>),
    /// Write the commit record of this transaction.
    PersistCommit(u32),
    /// Nothing: the piece has committed.
    Committed,
    /// Nothing: the piece was given up.
    Aborted,
}

/// A [`PieceAction`] as a value.
#[verifier::ext_equal]
pub enum PieceActionView {
    Run,
    Log(Seq<PLog>),
    Flush(Seq<DataRecord>),
    PersistCommit(u32),
    Committed,
    Aborted,
}

impl View for PieceAction {
    type V = PieceActionView;

    open spec fn view(&self) -> PieceActionView {
        match *self {
            PieceAction::Run => PieceActionView::Run,
            PieceAction::Log(logs) => PieceActionView::Log(logs@),
            PieceAction::Flush(records) => PieceActionView::Flush(records@),
            PieceAction::PersistCommit(id) => PieceActionView::PersistCommit(id),
            PieceAction::Committed => PieceActionView::Committed,
            PieceAction::Aborted => PieceActionView::Aborted,
        }
    }
}

impl PieceAction {
    /// Whether the piece has committed and nothing is left to do.
    pub fn committed(&self) -> (b: bool)
        ensures
            b == (self@ is Committed),
    {
        match self {
            PieceAction::Committed => true,
            _ => false,
        }
    }
}

/// The outcome of one step of a commit.
#[verifier::ext_equal]
pub struct PieceStep<T> {
    pub txn: OccView<T>,
    pub objects: Seq<TBox<T>>,
    pub txns: TxnTableView,
    pub action: PieceActionView,
}

/// What a [`TransactionParOCC`] holds.
#[verifier::ext_equal]
pub struct OccView<T> {
    pub base: TxnView,
    pub tags: Map<ObjectId, TTag<T>>,
    pub locks: Seq<ObjectId>,
    pub stage: Stage,
}

impl<T> OccView<T> {
    /// A transaction that has touched nothing.
    pub open spec fn fresh(base: TxnView) -> OccView<T> {
        OccView { base, tags: Map::empty(), locks: Seq::empty(), stage: Stage::Open }
    }

    /// The piece may read and write.
    pub open spec fn at_work(self) -> bool {
        self.stage is Open || self.stage is Running
    }

    /// The transaction refers into `objects` and `txns` only, notes no lock between two
    /// commits, and installs nothing before its log is written.
    pub open spec fn wf(self, objects: Seq<TBox<T>>, txns: TxnTableView) -> bool {
        &&& self.base.wf(txns)
        &&& self.base.at_rest()
        &&& tags_within(self.tags, objects)
        &&& self.at_work() ==> self.locks.len() == 0
        &&& self.at_work() || self.stage is Logging ==> tags_wf(self.tags, objects)
    }

    /// The transaction once a commit is over, with the piece's work run again or not.
    pub open spec fn closed(self, rank: usize, again: bool) -> OccView<T> {
        OccView {
            tags: Map::empty(),
            locks: Seq::empty(),
            stage: if again {
                Stage::Running { rank }
            } else {
                Stage::Open
            },
            ..self
        }
    }

    /// What is done after a commit: the work runs again, or nothing.
    pub open spec fn closing(again: bool) -> PieceActionView {
        if again {
            PieceActionView::Run
        } else {
            PieceActionView::Committed
        }
    }

    /// The table once the transaction has got to `rank`.
    pub open spec fn table_done(self, rank: usize, txns: TxnTableView) -> TxnTableView {
        txns.with(self.base.info, TxnInfo { rank, ..txns.at(self.base.info) })
    }

    /// What a commit at once leaves.
    pub open spec fn commits_to(
        self,
        after: OccView<T>,
        rank: usize,
        again: bool,
        objects: Seq<TBox<T>>,
        objects_after: Seq<TBox<T>>,
        txns: TxnTableView,
        txns_after: TxnTableView,
    ) -> bool {
        &&& objects_after == all_committed(self.tags, objects, self.base.id, self.base.info)
        &&& txns_after == self.table_done(rank, txns)
        &&& after == (OccView {
            base: TxnView { deps: after.base.deps, ..self.base },
            ..self.closed(rank, again)
        })
        &&& deps_extended(self.base.deps, after.base.deps, self.tags, objects, txns)
    }

    /// What the first step of a durable commit leaves: the written objects are locked,
    /// nothing is installed.
    pub open spec fn locks_to(
        self,
        after: OccView<T>,
        rank: usize,
        again: bool,
        objects: Seq<TBox<T>>,
        objects_after: Seq<TBox<T>>,
        txns: TxnTableView,
    ) -> bool {
        &&& objects_after == all_locked(self.tags, objects, self.base.id)
        &&& after == (OccView {
            base: TxnView { deps: after.base.deps, ..self.base },
            tags: self.tags,
            locks: after.locks,
            stage: Stage::Logging { rank, again },
        })
        &&& locks_noted(self.tags, after.locks)
        &&& deps_extended(self.base.deps, after.base.deps, self.tags, objects, txns)
    }

    /// What a failed commit leaves.
    pub open spec fn aborts_to(
        self,
        after: OccView<T>,
        objects: Seq<TBox<T>>,
        objects_after: Seq<TBox<T>>,
    ) -> bool {
        &&& objects_after == all_unlocked(self.tags, objects)
        &&& after == OccView::<T>::fresh(self.base)
    }

    /// `step` is a possible outcome of a try to commit.
    pub open spec fn tries_to(
        self,
        rank: usize,
        again: bool,
        objects: Seq<TBox<T>>,
        txns: TxnTableView,
        step: PieceStep<T>,
    ) -> bool {
        if !can_commit(self.tags, objects, self.base.id) {
            &&& self.aborts_to(step.txn, objects, step.objects)
            &&& step.txns == txns
            &&& step.action == PieceActionView::Aborted
        } else if txns.pmem {
            &&& self.locks_to(step.txn, rank, again, objects, step.objects, txns)
            &&& step.txns == txns
            &&& step.action == PieceActionView::Log(
                self.base.records.map_values(|r: DataRecord| r.log(self.base.id)),
            )
        } else {
            &&& self.commits_to(step.txn, rank, again, objects, step.objects, txns, step.txns)
            &&& step.action == Self::closing(again)
        }
    }

    /// The log is written: the writes are installed, and their ranges flushed.
    pub open spec fn install_step(
        self,
        rank: usize,
        again: bool,
        objects: Seq<TBox<T>>,
        txns: TxnTableView,
    ) -> PieceStep<T> {
        PieceStep {
            txn: OccView {
                base: TxnView { records: Seq::empty(), ..self.base },
                tags: tags_installed(self.tags),
                stage: Stage::Flushing { rank, again },
                ..self
            },
            objects: all_installed(self.tags, objects, self.base.id, self.base.info),
            txns,
            action: PieceActionView::Flush(addressed(self.base.records)),
        }
    }

    /// The ranges are flushed: the commit record is written.
    pub open spec fn record_step(
        self,
        rank: usize,
        again: bool,
        objects: Seq<TBox<T>>,
        txns: TxnTableView,
    ) -> PieceStep<T> {
        PieceStep {
            txn: OccView { stage: Stage::Recording { rank, again }, ..self },
            objects,
            txns,
            action: PieceActionView::PersistCommit(self.base.id.0),
        }
    }

    /// The commit record is written: the rank is set and the objects are free.
    pub open spec fn close_step(
        self,
        rank: usize,
        again: bool,
        objects: Seq<TBox<T>>,
        txns: TxnTableView,
    ) -> PieceStep<T> {
        PieceStep {
            txn: self.closed(rank, again),
            objects: all_unlocked(self.tags, objects),
            txns: self.table_done(rank, txns),
            action: Self::closing(again),
        }
    }

    /// `step` is a possible outcome of the next step, from any stage but the first.
    pub open spec fn steps_to(
        self,
        objects: Seq<TBox<T>>,
        txns: TxnTableView,
        step: PieceStep<T>,
    ) -> bool {
        match self.stage {
            Stage::Open => false,
            Stage::Running { rank } => self.tries_to(rank, true, objects, txns, step),
            Stage::Logging { rank, again } => step == self.install_step(rank, again, objects, txns),
            Stage::Flushing { rank, again } => step == self.record_step(rank, again, objects, txns),
            Stage::Recording { rank, again } => step == self.close_step(rank, again, objects, txns),
        }
    }

    /// What the piece sees in an object: its own write, else the object's data.
    pub open spec fn sees(self, tobj: TObject, objects: Seq<TBox<T>>) -> T {
        match tag_of(self.tags, tobj).write {
            WriteSlot::Pending(v) => v,
            _ => objects[tobj.id as int].data,
        }
    }

    pub open spec fn after_read(self, tobj: TObject, objects: Seq<TBox<T>>) -> OccView<T> {
        OccView {
            tags: self.tags.insert(
                tobj.id,
                tag_of(self.tags, tobj).with_read(objects[tobj.id as int].version),
            ),
            ..self
        }
    }

    pub open spec fn after_write(self, tobj: TObject, val: T) -> OccView<T> {
        OccView {
            tags: self.tags.insert(tobj.id, tag_of(self.tags, tobj).with_write(val)),
            ..self
        }
    }
}

/// A transaction whose pieces run under optimistic concurrency control.
pub struct TransactionParOCC<T> {
    base: TransactionPar,
    tags: HashMap<ObjectId, TTag<T>>,
    locks: Vec<ObjectId>,
    stage: Stage,
}

impl<T> View for TransactionParOCC<T> {
    type V = OccView<T>;

    closed spec fn view(&self) -> OccView<T> {
        OccView { base: self.base@, tags: self.tags@, locks: self.locks@, stage: self.stage }
    }
}

impl<T> TransactionParOCC<T> {
    pub fn new(pieces: Vec<Piece>, id: Tid, name: String, txns: &mut TxnTable) -> (txn:
        TransactionParOCC<T>)
        ensures
            txn@ == OccView::<T>::fresh(
                TxnView::fresh(pieces@, id, name@, TxnRef(old(txns)@.infos.len() as usize)),
            ),
            txn@.base.info.0 == old(txns)@.infos.len(),
            txn@.base.wf(final(txns)@),
            final(txns)@ == (TxnTableView {
                infos: old(txns)@.infos.push(
                    TxnInfo { tid: id, committed: false, persisted: false, rank: 0 },
                ),
                ..old(txns)@
            }),
    {
        TransactionParOCC {
            base: TransactionPar::new(pieces, id, name, txns),
            tags: HashMap::with_capacity(16),
            locks: Vec::with_capacity(16),
            stage: Stage::Open,
        }
    }

    pub fn new_from_base(txn_base: &TransactionParBase, tid: Tid, txns: &mut TxnTable) -> (txn:
        TransactionParOCC<T>)
        ensures
            txn@ == OccView::<T>::fresh(
                TxnView::fresh(
                    txn_base.pieces(),
                    tid,
                    txn_base.name(),
                    TxnRef(old(txns)@.infos.len() as usize),
                ),
            ),
            txn@.base.info.0 == old(txns)@.infos.len(),
            txn@.base.wf(final(txns)@),
            final(txns)@ == (TxnTableView {
                infos: old(txns)@.infos.push(
                    TxnInfo { tid, committed: false, persisted: false, rank: 0 },
                ),
                ..old(txns)@
            }),
    {
        TransactionParOCC {
            base: TransactionPar::new_from_base(txn_base, tid, txns),
            tags: HashMap::with_capacity(16),
            locks: Vec::with_capacity(16),
            stage: Stage::Open,
        }
    }

    /// The tag of an object, made on the first access.
    fn retrieve_tag(&mut self, tobj: TObject) -> (tag: &mut TTag<T>)
        ensures
            *tag == tag_of(old(self)@.tags, tobj),
            final(self)@ == (OccView {
                tags: old(self)@.tags.insert(tobj.id, *final(tag)),
                ..old(self)@
            }),
    {
        self.tags.entry(tobj.id).or_insert(TTag::new(tobj))
    }

    /// Reads an object: the piece's own write if there is one, and otherwise what is
    /// in the store. Either way the piece depends on the object's version from now
    /// on.
    pub fn read<'a>(&'a mut self, tobj: &TObject, store: &'a ObjectStore<T>) -> (val: &'a T)
        requires
            tobj.id < store@.len(),
            old(self)@.at_work(),
        ensures
            *val == old(self)@.sees(*tobj, store@),
            final(self)@ == old(self)@.after_read(*tobj, store@),
    {
        let version: u64 = store.get(tobj.id).get_version();
        let tag = self.retrieve_tag(*tobj);
        tag.add_version(version);
        match tag.write_value() {
            Some(val) => val,
            None => store.get(tobj.id).get_data(),
        }
    }

    /// Writes an object; nobody else sees it before the piece commits.
    pub fn write(&mut self, tobj: &TObject, val: T)
        requires
            old(self)@.at_work(),
        ensures
            final(self)@ == old(self)@.after_write(*tobj, val),
    {
        let tag = self.retrieve_tag(*tobj);
        tag.write(val);
    }

    /// The objects that have a tag, in the order in which the map is walked.
    fn tag_ids(&self) -> (ids: Vec<ObjectId>)
        ensures
            walks(ids@, self@.tags),
    {
        let mut ids: Vec<ObjectId> = Vec::new();
        let ghost order = vstd::std_specs::hash::spec_keys_iter(&self.tags).remaining();
        for id in it: self.tags.keys()
            invariant
                it.seq() == order,
                ids@.len() == it.index(),
                forall|i: int| 0 <= i < it.index() ==> #[trigger] ids@[i] == *order[i],
        {
            ids.push(*id);
        }
        assert(ids@ =~= order.unref());
        assert forall|i: int, j: int| 0 <= i < ids@.len() && 0 <= j < ids@.len() && i != j implies
            ids@[i] != ids@[j] by {
            assert(order[i] != order[j]);
        }
        ids
    }

    /// Frees the objects that are noted as locked.
    fn unlock_held(&mut self, store: &mut ObjectStore<T>)
        requires
            forall|j: int|
                0 <= j < old(self)@.locks.len() ==> (#[trigger] old(self)@.locks[j]) < old(
                    store,
                )@.len(),
        ensures
            final(self)@ == (OccView { locks: Seq::empty(), ..old(self)@ }),
            final(store)@ == held_unlocked(old(self)@.locks, old(store)@),
    {
        let ghost noted = self@.locks;
        while self.locks.len() > 0
            invariant
                self@ == (OccView { locks: self@.locks, ..old(self)@ }),
                noted == old(self)@.locks,
                self@.locks == noted.take(self@.locks.len() as int),
                self@.locks.len() <= noted.len(),
                forall|j: int| 0 <= j < noted.len() ==> (#[trigger] noted[j]) < store@.len(),
                store@ == held_unlocked(noted.skip(self@.locks.len() as int), old(store)@),
            decreases self@.locks.len(),
        {
            let ghost n = self@.locks.len() as int;
            if let Some(held) = self.locks.pop() {
                store.unlock(held);
            }
            assert forall|o: ObjectId| #[trigger] noted.skip(n - 1).contains(o) <==> o == noted[n
                - 1] || noted.skip(n).contains(o) by {
                lemma_skip_contains(noted, n, o);
            }
        }
        assert(noted.skip(0) =~= noted);
    }

    /// Locks the written objects; if another transaction holds one of them, frees
    /// those it has locked and gives up.
    fn lock(&mut self, store: &mut ObjectStore<T>) -> (taken: bool)
        requires
            tags_wf(old(self)@.tags, old(store)@),
            old(self)@.locks.len() == 0,
        ensures
            taken == can_lock(old(self)@.tags, old(store)@, old(self)@.base.id),
            final(self)@ == (OccView { locks: final(self)@.locks, ..old(self)@ }),
            taken ==> final(store)@ == all_locked(
                old(self)@.tags,
                old(store)@,
                old(self)@.base.id,
            ),
            taken ==> locks_noted(old(self)@.tags, final(self)@.locks),
            !taken ==> final(self)@.locks.len() == 0 && lock_undone(
                old(self)@.tags,
                old(store)@,
                final(store)@,
                old(self)@.base.id,
            ),
    {
        let me = *self.base.id();
        let ids = self.tag_ids();
        let ghost tags = self@.tags;
        let ghost before = store@;
        let mut i: usize = 0;
        proof {
            lemma_walk_ends(ids@, tags);
        }
        while i < ids.len()
            invariant
                i <= ids@.len(),
                walks(ids@, tags),
                tags == old(self)@.tags,
                before == old(store)@,
                tags_wf(tags, before),
                me == self@.base.id,
                self@ == (OccView { locks: self@.locks, ..old(self)@ }),
                self.tags@ == tags,
                self@.locks.no_duplicates(),
                can_lock(walked(ids@, tags, i as int), before, me),
                store@ == all_locked(walked(ids@, tags, i as int), before, me),
                forall|j: int|
                    0 <= j < self@.locks.len() ==> wrote(
                        walked(ids@, tags, i as int),
                        #[trigger] self@.locks[j] as int,
                    ),
                forall|o: ObjectId| #[trigger]
                    wrote(walked(ids@, tags, i as int), o as int) ==> self@.locks.contains(o),
            decreases ids@.len() - i,
        {
            proof {
                lemma_walk_step(ids@, tags, i as int);
            }
            let id: ObjectId = ids[i];
            let has_write: bool = match self.tags.get(&id) {
                Some(tag) => tag.has_write(),
                None => false,
            };
            if has_write {
                if !store.lock(id, me) {
                    assert(!before[id as int].lockable(me));
                    self.unlock_held(store);
                    return false;
                }
                let ghost locks = self@.locks;
                self.locks.push(id);
                proof {
                    assert(self@.locks == locks.push(id));
                    assert(self@.locks[locks.len() as int] == id);
                    assert forall|o: ObjectId| locks.contains(o) implies self@.locks.contains(
                        o,
                    ) by {
                        let j = choose|j: int| 0 <= j < locks.len() && locks[j] == o;
                        assert(self@.locks[j] == o);
                    }
                }
            }
            assert forall|o: ObjectId| #[trigger]
                wrote(walked(ids@, tags, i + 1), o as int) implies self@.locks.contains(o) by {
                assert(o == id || wrote(walked(ids@, tags, i as int), o as int));
            }
            i = i + 1;
        }
        true
    }

    /// Whether nobody has changed the objects that the piece read.
    fn check(&self, store: &ObjectStore<T>) -> (current: bool)
        requires
            tags_wf(self@.tags, store@),
        ensures
            current == reads_current(self@.tags, store@),
    {
        let ids = self.tag_ids();
        let ghost tags = self@.tags;
        let mut i: usize = 0;
        proof {
            lemma_walk_ends(ids@, tags);
        }
        while i < ids.len()
            invariant
                i <= ids@.len(),
                walks(ids@, tags),
                tags == self@.tags,
                tags_wf(tags, store@),
                reads_current(walked(ids@, tags, i as int), store@),
            decreases ids@.len() - i,
        {
            proof {
                lemma_walk_step(ids@, tags, i as int);
            }
            let id: ObjectId = ids[i];
            if let Some(tag) = self.tags.get(&id) {
                if let Some(version) = tag.vers {
                    if !store.get(id).check(version) {
                        assert(store@[id as int].version != read_version(tags, id as int)->0);
                        return false;
                    }
                }
            }
            i = i + 1;
        }
        true
    }

    /// Makes the transaction depend on those that accessed the piece's objects and
    /// have yet to commit.
    fn add_dep(&mut self, store: &ObjectStore<T>, txns: &TxnTable)
        requires
            tags_wf(old(self)@.tags, store@),
            store_wf(store@, txns@),
        ensures
            final(self)@ == (OccView {
                base: TxnView { deps: final(self)@.base.deps, ..old(self)@.base },
                ..old(self)@
            }),
            deps_extended(
                old(self)@.base.deps,
                final(self)@.base.deps,
                old(self)@.tags,
                store@,
                txns@,
            ),
    {
        let ids = self.tag_ids();
        let ghost tags = self@.tags;
        let mut i: usize = 0;
        proof {
            lemma_walk_ends(ids@, tags);
        }
        while i < ids.len()
            invariant
                i <= ids@.len(),
                walks(ids@, tags),
                tags == old(self)@.tags,
                tags_wf(tags, store@),
                store_wf(store@, txns@),
                self@ == (OccView {
                    base: TxnView { deps: self@.base.deps, ..old(self)@.base },
                    ..old(self)@
                }),
                deps_extended(
                    old(self)@.base.deps,
                    self@.base.deps,
                    walked(ids@, tags, i as int),
                    store@,
                    txns@,
                ),
            decreases ids@.len() - i,
        {
            proof {
                lemma_walk_step(ids@, tags, i as int);
            }
            let id: ObjectId = ids[i];
            if let Some(info) = store.get(id).get_writer_info() {
                if !txns.info(info).has_commit() {
                    self.base.add_dep(txns.info(info).id().raw(), info);
                }
            }
            assert forall|r: TxnRef, k: u32| #[trigger]
                pending_access(walked(ids@, tags, i + 1), store@, txns@, r, k) <==> {
                    ||| pending_access(walked(ids@, tags, i as int), store@, txns@, r, k)
                    ||| store@[id as int].writer_info == Some(r) && !txns@.at(r).committed
                        && txns@.at(r).tid.0 == k
                } by {
                lemma_pending_access_insert(
                    walked(ids@, tags, i as int),
                    id,
                    tags[id],
                    store@,
                    txns@,
                    r,
                    k,
                );
            }
            i = i + 1;
        }
    }

    /// Moves the pending values into their objects.
    fn install_data(&mut self, store: &mut ObjectStore<T>)
        requires
            tags_wf(old(self)@.tags, old(store)@),
        ensures
            final(self)@ == (OccView { tags: tags_installed(old(self)@.tags), ..old(self)@ }),
            final(store)@ == all_installed(
                old(self)@.tags,
                old(store)@,
                old(self)@.base.id,
                old(self)@.base.info,
            ),
    {
        let id = *self.base.id();
        let txn_info = *self.base.txn_info();
        let ids = self.tag_ids();
        let ghost tags = self@.tags;
        let ghost before = store@;
        let mut i: usize = 0;
        proof {
            lemma_walk_ends(ids@, tags);
        }
        while i < ids.len()
            invariant
                i <= ids@.len(),
                walks(ids@, tags),
                tags_wf(tags, before),
                id == self@.base.id,
                txn_info == self@.base.info,
                self@ == (OccView { tags: self@.tags, ..old(self)@ }),
                self@.tags == tags.union_prefer_right(
                    tags_installed(walked(ids@, tags, i as int)),
                ),
                store@ == all_installed(walked(ids@, tags, i as int), before, id, txn_info),
            decreases ids@.len() - i,
        {
            proof {
                lemma_walk_step(ids@, tags, i as int);
            }
            let o: ObjectId = ids[i];
            if let Some(mut tag) = self.tags.remove(&o) {
                tag.commit_data(id, store);
                store.set_writer_info(o, txn_info);
                self.tags.insert(o, tag);
            }
            i = i + 1;
        }
    }

    /// Forgets the tags and frees the objects that were written.
    fn clean_up(&mut self, store: &mut ObjectStore<T>)
        requires
            forall|o: ObjectId| #[trigger]
                old(self)@.tags.contains_key(o) ==> o < old(store)@.len(),
        ensures
            final(self)@ == (OccView {
                tags: Map::<ObjectId, TTag<T>>::empty(),
                locks: Seq::empty(),
                ..old(self)@
            }),
            final(store)@ == all_unlocked(old(self)@.tags, old(store)@),
    {
        let ids = self.tag_ids();
        let ghost tags = self@.tags;
        let ghost before = store@;
        let mut i: usize = 0;
        proof {
            lemma_walk_ends(ids@, tags);
        }
        while i < ids.len()
            invariant
                i <= ids@.len(),
                walks(ids@, tags),
                self@ == old(self)@,
                tags == self@.tags,
                forall|o: ObjectId| #[trigger] tags.contains_key(o) ==> o < before.len(),
                store@ == all_unlocked(walked(ids@, tags, i as int), before),
            decreases ids@.len() - i,
        {
            proof {
                lemma_walk_step(ids@, tags, i as int);
            }
            let id: ObjectId = ids[i];
            if let Some(tag) = self.tags.get(&id) {
                if tag.has_write() {
                    store.unlock(id);
                }
            }
            i = i + 1;
        }
        self.tags.clear();
        self.locks.clear();
    }

    /// Gives the piece up.
    fn abort_piece(
        &mut self,
        _reason: AbortReason,
        store: &mut ObjectStore<T>,
    ) -> (action: PieceAction)
        requires
            tags_within(old(self)@.tags, old(store)@),
        ensures
            action@ == PieceActionView::Aborted,
            old(self)@.aborts_to(final(self)@, old(store)@, final(store)@),
    {
        self.clean_up(store);
        self.stage = Stage::Open;
        PieceAction::Aborted
    }

    /// Commits a piece that holds its locks and has been checked: at once, or, where
    /// the memory is persistent, beginning with the log.
    fn commit_piece(
        &mut self,
        rank: usize,
        again: bool,
        store: &mut ObjectStore<T>,
        txns: &mut TxnTable,
    ) -> (action: PieceAction)
        requires
            tags_wf(old(self)@.tags, old(store)@),
            old(self)@.base.linked(old(txns)@),
        ensures
            (PieceStep {
                txn: final(self)@,
                objects: final(store)@,
                txns: final(txns)@,
                action: action@,
            }) == (if old(txns)@.pmem {
                PieceStep {
                    txn: OccView { stage: Stage::Logging { rank, again }, ..old(self)@ },
                    objects: old(store)@,
                    txns: old(txns)@,
                    action: PieceActionView::Log(
                        old(self)@.base.records.map_values(
                            |r: DataRecord| r.log(old(self)@.base.id),
                        ),
                    ),
                }
            } else {
                PieceStep {
                    txn: old(self)@.closed(rank, again),
                    objects: all_committed(
                        old(self)@.tags,
                        old(store)@,
                        old(self)@.base.id,
                        old(self)@.base.info,
                    ),
                    txns: old(self)@.table_done(rank, old(txns)@),
                    action: OccView::<T>::closing(again),
                }
            }),
    {
        if txns.pmem() {
            self.stage = Stage::Logging { rank, again };
            PieceAction::Log(self.base.persist_logs())
        } else {
            self.install_data(store);
            self.close_piece(rank, again, store, txns)
        }
    }

    /// Ends a commit: sets the rank and frees the objects.
    fn close_piece(
        &mut self,
        rank: usize,
        again: bool,
        store: &mut ObjectStore<T>,
        txns: &mut TxnTable,
    ) -> (action: PieceAction)
        requires
            forall|o: ObjectId| #[trigger]
                old(self)@.tags.contains_key(o) ==> o < old(store)@.len(),
            old(self)@.base.linked(old(txns)@),
        ensures
            (PieceStep {
                txn: final(self)@,
                objects: final(store)@,
                txns: final(txns)@,
                action: action@,
            }) == old(self)@.close_step(rank, again, old(store)@, old(txns)@),
    {
        self.base.update_rank(rank, txns);
        self.clean_up(store);
        if again {
            self.stage = Stage::Running { rank };
            PieceAction::Run
        } else {
            self.stage = Stage::Open;
            PieceAction::Committed
        }
    }

    /// Locks, checks and commits, or gives up.
    fn attempt(
        &mut self,
        rank: usize,
        again: bool,
        store: &mut ObjectStore<T>,
        txns: &mut TxnTable,
    ) -> (action: PieceAction)
        requires
            old(self)@.wf(old(store)@, old(txns)@),
            old(self)@.at_work(),
            store_wf(old(store)@, old(txns)@),
        ensures
            old(self)@.tries_to(
                rank,
                again,
                old(store)@,
                old(txns)@,
                (PieceStep {
                    txn: final(self)@,
                    objects: final(store)@,
                    txns: final(txns)@,
                    action: action@,
                }),
            ),
            final(self)@.wf(final(store)@, final(txns)@),
            store_wf(final(store)@, final(txns)@),
    {
        let ghost tags = self@.tags;
        let ghost before = store@;
        if !self.lock(store) {
            assert(all_unlocked(tags, store@) =~= all_unlocked(tags, before));
            return self.abort_piece(AbortReason::FailedLocking, store);
        }
        assert(reads_current(tags, store@) == reads_current(tags, before)) by {
            assert forall|o: int| 0 <= o < before.len() implies (#[trigger] store@[o]).version
                == before[o].version by {}
            assert forall|o: int| 0 <= o < before.len() implies (#[trigger] before[o]).version
                == store@[o].version by {}
        }
        if !self.check(store) {
            assert(all_unlocked(tags, store@) =~= all_unlocked(tags, before));
            return self.abort_piece(AbortReason::FailedLocking, store);
        }
        self.add_dep(store, txns);
        assert forall|r: TxnRef, k: u32| #[trigger]
            pending_access(tags, before, txns@, r, k) <==> pending_access(
                tags,
                store@,
                txns@,
                r,
                k,
            ) by {
            lemma_pending_access_alike(tags, before, store@, txns@, r, k);
        }
        assert(all_committed(tags, store@, self@.base.id, self@.base.info) =~= all_committed(
            tags,
            before,
            self@.base.id,
            self@.base.info,
        ));
        self.commit_piece(rank, again, store, txns)
    }

    /// Tries to commit what the piece has read and written since the last try, as
    /// the transaction's progress up to `rank`. It succeeds if the piece can lock
    /// what it wrote and nobody changed what it read; then its writes are installed
    /// and the transaction depends on those it must follow. Otherwise the writes are
    /// dropped. Either way the piece's tags are gone in the end and the objects it
    /// wrote are free, even those that another transaction had locked.
    ///
    /// Where the memory is persistent, a successful commit takes several steps, with
    /// the written objects locked: the caller performs the action and goes on with
    /// [`step_piece`](Self::step_piece). The log entries are those of the records that
    /// the work has added to the transaction; they are written before anything is
    /// installed, then the changed ranges are flushed, then the commit record is
    /// written, and only then the rank is set and the objects are free.
    pub fn try_commit_piece(
        &mut self,
        rank: usize,
        store: &mut ObjectStore<T>,
        txns: &mut TxnTable,
    ) -> (action: PieceAction)
        requires
            old(self)@.wf(old(store)@, old(txns)@),
            old(self)@.stage is Open,
            store_wf(old(store)@, old(txns)@),
        ensures
            old(self)@.tries_to(
                rank,
                false,
                old(store)@,
                old(txns)@,
                (PieceStep {
                    txn: final(self)@,
                    objects: final(store)@,
                    txns: final(txns)@,
                    action: action@,
                }),
            ),
            final(self)@.wf(final(store)@, final(txns)@),
            store_wf(final(store)@, final(txns)@),
    {
        self.attempt(rank, false, store, txns)
    }

    /// Runs a piece over and over, as long as it commits: the caller runs the piece's
    /// work and goes on with [`step_piece`](Self::step_piece), until the piece is
    /// given up.
    pub fn execute_piece(&mut self, piece: &Piece) -> (action: PieceAction)
        requires
            old(self)@.stage is Open,
        ensures
            final(self)@ == (OccView {
                stage: Stage::Running { rank: piece.rank },
                ..old(self)@
            }),
            action@ == PieceActionView::Run,
    {
        self.stage = Stage::Running { rank: piece.rank() };
        PieceAction::Run
    }

    /// Takes the next step of a commit, or of a piece that is run over and over, once
    /// the last action has been performed.
    pub fn step_piece(
        &mut self,
        store: &mut ObjectStore<T>,
        txns: &mut TxnTable,
    ) -> (action: PieceAction)
        requires
            old(self)@.wf(old(store)@, old(txns)@),
            !(old(self)@.stage is Open),
            store_wf(old(store)@, old(txns)@),
        ensures
            old(self)@.steps_to(
                old(store)@,
                old(txns)@,
                (PieceStep {
                    txn: final(self)@,
                    objects: final(store)@,
                    txns: final(txns)@,
                    action: action@,
                }),
            ),
            final(self)@.wf(final(store)@, final(txns)@),
            store_wf(final(store)@, final(txns)@),
    {
        match self.stage {
            Stage::Open => {
                assert(false);
                PieceAction::Aborted
            },
            Stage::Running { rank } => self.attempt(rank, true, store, txns),
            Stage::Logging { rank, again } => {
                self.install_data(store);
                self.stage = Stage::Flushing { rank, again };
                PieceAction::Flush(self.base.persist_data())
            },
            Stage::Flushing { rank, again } => {
                self.stage = Stage::Recording { rank, again };
                PieceAction::PersistCommit(self.base.id().raw())
            },
            Stage::Recording { rank, again } => self.close_piece(rank, again, store, txns),
        }
    }

    /// The transaction on which a piece's work acts.
    pub fn base(&mut self) -> (base: &mut TransactionPar)
        ensures
            base@ == old(self)@.base,
            final(self)@ == (OccView { base: final(base)@, ..old(self)@ }),
    {
        &mut self.base
    }
}

} // verus!
