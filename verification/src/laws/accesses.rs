//! Laws of single objects and of what a piece does with them: locks, versions, reads
//! and writes.

use vstd::prelude::*;

use crate::parnvm::nvm_txn::TxnView;
use crate::parnvm::nvm_txn_occ::OccView;
use crate::plog::DataRecord;
use crate::tcore::{BenchmarkCounter, ObjectId, TBox, TObject, TTag, WriteSlot};
use crate::txn::{Tid, TxnRef, TxnTableView};

verus! {

/// A lock that a transaction has taken is open to that transaction alone, a free one to
/// all, and neither taking nor freeing it touches anything else of the object.
pub proof fn law_lock_has_one_holder<T>(tbox: TBox<T>, me: Tid, other: Tid)
    ensures
        tbox.locked(me).owner == Some(me),
        tbox.unlocked().owner is None,
        tbox.locked(me).lockable(other) <==> other == me,
        tbox.unlocked().lockable(other),
        tbox.lockable(other) <==> tbox.owner is None || tbox.owner == Some(other),
        tbox.locked(me).unlocked() == tbox.unlocked(),
        ({
            let (taken, freed) = (tbox.locked(me), tbox.unlocked());
            &&& taken.data == tbox.data && freed.data == tbox.data
            &&& taken.version == tbox.version && freed.version == tbox.version
            &&& taken.last_writer == tbox.last_writer && freed.last_writer == tbox.last_writer
            &&& taken.writer_info == tbox.writer_info && freed.writer_info == tbox.writer_info
        }),
{
}

/// A write puts its value into the object, names the writer and moves the version on by
/// one, and the note of an access names the transaction; the lock is not touched.
pub proof fn law_write_moves_version_on<T>(tbox: TBox<T>, val: T, id: Tid, info: TxnRef)
    ensures
        ({
            let written = tbox.installed(val, id);
            &&& written.data == val
            &&& written.last_writer == Some(id)
            &&& written.version == (tbox.version + 1) % 0x1_0000_0000_0000_0000
            &&& written.version != tbox.version
            &&& written.owner == tbox.owner
            &&& written.writer_info == tbox.writer_info
        }),
        ({
            let noted = tbox.accessed_by(info);
            &&& noted.writer_info == Some(info)
            &&& noted.data == tbox.data
            &&& noted.version == tbox.version
            &&& noted.owner == tbox.owner
            &&& noted.last_writer == tbox.last_writer
        }),
{
}

/// Commits are counted one by one, around the end of the range.
pub proof fn law_counter_counts(n: u64)
    ensures
        BenchmarkCounter::next(n) == (n + 1) % 0x1_0000_0000_0000_0000,
        BenchmarkCounter::next(n) != n,
{
}

/// A tag keeps the version of the first read and the value of the last write, and
/// neither disturbs the other.
pub proof fn law_tag_keeps_first_read_and_last_write<T>(
    tag: TTag<T>,
    first: u64,
    second: u64,
    old_val: T,
    val: T,
)
    ensures
        tag.vers is None ==> tag.with_read(first).vers == Some(first),
        tag.with_read(first).vers is Some,
        tag.with_read(first).with_read(second) == tag.with_read(first),
        tag.with_read(first).write == tag.write,
        tag.with_read(first).tobj == tag.tobj,
        tag.with_write(val).write == WriteSlot::Pending(val),
        tag.with_write(old_val).with_write(val) == tag.with_write(val),
        tag.with_write(val).vers == tag.vers,
        tag.with_write(val).tobj == tag.tobj,
        tag.with_read(first).with_write(val) == tag.with_write(val).with_read(first),
        tag.with_write(val).wrote(),
        tag.wrote() <==> tag.write != WriteSlot::<T>::Clean,
{
}

/// A read gives the piece's own pending write if there is one, and what is in the object
/// otherwise.
pub proof fn law_read_gives_own_write_else_object<T>(
    txn: OccView<T>,
    tobj: TObject,
    objects: Seq<TBox<T>>,
)
    ensures
        txn.tags.contains_key(tobj.id) && txn.tags[tobj.id].write is Pending ==> txn.sees(
            tobj,
            objects,
        ) == txn.tags[tobj.id].write->Pending_0,
        !txn.tags.contains_key(tobj.id) || !(txn.tags[tobj.id].write is Pending) ==> txn.sees(
            tobj,
            objects,
        ) == objects[tobj.id as int].data,
{
}

/// A read is noted under the object with the version that the object has, unless an
/// earlier read was, and leaves everything else that the piece remembers alone.
pub proof fn law_read_is_noted<T>(
    txn: OccView<T>,
    tobj: TObject,
    objects: Seq<TBox<T>>,
    other: ObjectId,
)
    ensures
        ({
            let after = txn.after_read(tobj, objects);
            let known = txn.tags.contains_key(tobj.id);
            &&& after.base == txn.base && after.locks == txn.locks && after.stage == txn.stage
            &&& after.tags.contains_key(tobj.id)
            &&& after.tags[tobj.id].vers == if known && txn.tags[tobj.id].vers is Some {
                txn.tags[tobj.id].vers
            } else {
                Some(objects[tobj.id as int].version)
            }
            &&& known ==> after.tags[tobj.id].write == txn.tags[tobj.id].write
            &&& !known ==> after.tags[tobj.id].write is Clean && after.tags[tobj.id].tobj == tobj
            &&& known ==> after.tags[tobj.id].tobj == txn.tags[tobj.id].tobj
            &&& other != tobj.id ==> {
                &&& after.tags.contains_key(other) <==> txn.tags.contains_key(other)
                &&& txn.tags.contains_key(other) ==> after.tags[other] == txn.tags[other]
            }
        }),
{
}

/// A write is kept under the object in place of an earlier one, and leaves everything
/// else that the piece remembers alone; in particular it notes no read.
pub proof fn law_write_is_kept<T>(txn: OccView<T>, tobj: TObject, val: T, other: ObjectId)
    ensures
        ({
            let after = txn.after_write(tobj, val);
            let known = txn.tags.contains_key(tobj.id);
            &&& after.base == txn.base && after.locks == txn.locks && after.stage == txn.stage
            &&& after.tags.contains_key(tobj.id)
            &&& after.tags[tobj.id].write == WriteSlot::Pending(val)
            &&& after.tags[tobj.id].vers == if known {
                txn.tags[tobj.id].vers
            } else {
                None
            }
            &&& after.tags[tobj.id].tobj == if known {
                txn.tags[tobj.id].tobj
            } else {
                tobj
            }
            &&& other != tobj.id ==> {
                &&& after.tags.contains_key(other) <==> txn.tags.contains_key(other)
                &&& txn.tags.contains_key(other) ==> after.tags[other] == txn.tags[other]
            }
        }),
{
}

/// A new optimistic transaction has touched and locked nothing, and its piece may work.
pub proof fn law_new_pieces_are_blank<T>(base: TxnView)
    ensures
        ({
            let txn = OccView::<T>::fresh(base);
            &&& txn.base == base
            &&& txn.locks.len() == 0
            &&& txn.stage is Open
            &&& txn.at_work()
            &&& forall|o: ObjectId| !(#[trigger] txn.tags.contains_key(o))
        }),
{
}

/// A new optimistic transaction may commit, and a piece that reads or writes an object of
/// the store still may.
pub proof fn law_accesses_are_safe<T>(
    txn: OccView<T>,
    objects: Seq<TBox<T>>,
    txns: TxnTableView,
    tobj: TObject,
    val: T,
)
    requires
        txn.base.wf(txns),
        txn.base.at_rest(),
        tobj.id < objects.len(),
    ensures
        OccView::<T>::fresh(txn.base).wf(objects, txns),
        txn.wf(objects, txns) && txn.at_work() ==> {
            &&& txn.after_read(tobj, objects).wf(objects, txns)
            &&& txn.after_read(tobj, objects).at_work()
            &&& txn.after_write(tobj, val).wf(objects, txns)
            &&& txn.after_write(tobj, val).at_work()
        },
{
}

/// A log entry tells the range, the layout and the transaction.
pub proof fn law_log_entry_tells_all(record: DataRecord, id: Tid)
    ensures
        record.log(id).ptr == record.ptr,
        record.log(id).layout == record.layout,
        record.log(id).id == id,
{
}

} // verus!
