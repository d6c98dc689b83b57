//! Shared objects, the store that holds them, and the tags by which a
//! transaction remembers what it read and wrote.

use vstd::prelude::*;

use crate::txn::{Tid, TxnRef, TxnTableView};

verus! {

/// Counts successful commits.
pub struct BenchmarkCounter {
    pub success: u64,
}

impl BenchmarkCounter {
    /// The count after one more commit; it wraps at the end of its range.
    pub open spec fn next(n: u64) -> u64 {
        if n == u64::MAX {
            0
        } else {
            (n + 1) as u64
        }
    }

    pub fn new() -> (counter: BenchmarkCounter)
        ensures
            counter.success == 0,
    {
        BenchmarkCounter { success: 0 }
    }

    pub fn success(&mut self)
        ensures
            final(self).success == Self::next(old(self).success),
    {
        self.success = self.success.wrapping_add(1);
    }
}

/// Identifies an object of an [`ObjectStore`].
pub type ObjectId = usize;

/// Handle of a shared object; copies refer to the same object.
#[derive(Clone, Copy, PartialEq, Eq, Structural, Debug)]
pub struct TObject {
    pub id: ObjectId,
}

impl TObject {
    pub fn get_id(&self) -> (id: ObjectId)
        ensures
            id == self.id,
    {
        self.id
    }
}

/// The version an object has after one more write; it wraps at the end of its
/// range.
pub open spec fn next_version(version: u64) -> u64 {
    if version == u64::MAX {
        0
    } else {
        (version + 1) as u64
    }
}

/// A shared object: its data, the version that counts its writes, the
/// transaction that holds its lock, the transaction that wrote it last, and the
/// progress of the last transaction that committed an access to it.
pub struct TBox<T> {
    pub data: T,
    pub version: u64,
    pub owner: Option<Tid>,
    pub last_writer: Option<Tid>,
    pub writer_info: Option<TxnRef>,
}

impl<T> TBox<T> {
    /// Whether `me` can have the lock.
    pub open spec fn lockable(self, me: Tid) -> bool {
        self.owner is None || self.owner == Some(me)
    }

    pub open spec fn locked(self, me: Tid) -> TBox<T> {
        TBox { owner: Some(me), ..self }
    }

    pub open spec fn unlocked(self) -> TBox<T> {
        TBox { owner: None, ..self }
    }

    pub open spec fn installed(self, val: T, id: Tid) -> TBox<T> {
        TBox {
            data: val,
            version: next_version(self.version),
            last_writer: Some(id),
            ..self
        }
    }

    pub open spec fn accessed_by(self, info: TxnRef) -> TBox<T> {
        TBox { writer_info: Some(info), ..self }
    }

    /// A free object that nobody has written.
    pub fn new(data: T) -> (tbox: TBox<T>)
        ensures
            tbox == (TBox {
                data,
                version: 0,
                owner: None,
                last_writer: None,
                writer_info: None,
            }),
    {
        TBox { data, version: 0, owner: None, last_writer: None, writer_info: None }
    }

    pub fn get_data(&self) -> (data: &T)
        ensures
            *data == self.data,
    {
        &self.data
    }

    pub fn get_version(&self) -> (version: u64)
        ensures
            version == self.version,
    {
        self.version
    }

    /// Whether the object still has the given version.
    pub fn check(&self, version: u64) -> (b: bool)
        ensures
            b == (self.version == version),
    {
        self.version == version
    }

    pub fn get_writer_info(&self) -> (info: Option<TxnRef>)
        ensures
            info == self.writer_info,
    {
        self.writer_info
    }

    pub fn set_writer_info(&mut self, info: TxnRef)
        ensures
            *final(self) == old(self).accessed_by(info),
    {
        self.writer_info = Some(info);
    }

    /// Takes the lock for `me`, unless another transaction holds it.
    pub fn lock(&mut self, me: Tid) -> (taken: bool)
        ensures
            taken == old(self).lockable(me),
            *final(self) == (if taken {
                old(self).locked(me)
            } else {
                *old(self)
            }),
    {
        match self.owner {
            Some(owner) => owner == me,
            None => {
                self.owner = Some(me);
                true
            },
        }
    }

    /// Frees the lock, whoever holds it.
    pub fn unlock(&mut self)
        ensures
            *final(self) == old(self).unlocked(),
    {
        self.owner = None;
    }

    /// Replaces the data with what transaction `id` wrote.
    pub fn install(&mut self, val: T, id: Tid)
        ensures
            *final(self) == old(self).installed(val, id),
    {
        self.data = val;
        self.version = self.version.wrapping_add(1);
        self.last_writer = Some(id);
    }
}

/// All shared objects of one type.
pub struct ObjectStore<T> {
    objects: Vec<TBox<T>>,
}

impl<T> View for ObjectStore<T> {
    type V = Seq<TBox<T>>;

    closed spec fn view(&self) -> Seq<TBox<T>> {
        self.objects@
    }
}

/// Every object that records an accessing transaction refers into `txns`.
pub open spec fn store_wf<T>(objects: Seq<TBox<T>>, txns: TxnTableView) -> bool {
    forall|o: int|
        0 <= o < objects.len() && (#[trigger] objects[o]).writer_info is Some ==> txns.valid(
            objects[o].writer_info->0,
        )
}

impl<T> ObjectStore<T> {
    pub fn new() -> (store: ObjectStore<T>)
        ensures
            store@ == Seq::<TBox<T>>::empty(),
    {
        ObjectStore { objects: Vec::new() }
    }

    /// Adds an object that nobody has locked or written.
    pub fn create(&mut self, data: T) -> (tobj: TObject)
        ensures
            tobj.id == old(self)@.len(),
            final(self)@ == old(self)@.push(
                TBox { data, version: 0, owner: None, last_writer: None, writer_info: None },
            ),
    {
        let tobj = TObject { id: self.objects.len() };
        self.objects.push(TBox::new(data));
        tobj
    }

    pub fn get(&self, id: ObjectId) -> (tbox: &TBox<T>)
        requires
            id < self@.len(),
        ensures
            *tbox == self@[id as int],
    {
        &self.objects[id]
    }

    /// Reads an object outside any transaction.
    pub fn notrans_read(&self, tobj: &TObject) -> (data: &T)
        requires
            tobj.id < self@.len(),
        ensures
            *data == self@[tobj.id as int].data,
    {
        self.get(tobj.id).get_data()
    }

    /// Locks an object for `me` outside any transaction.
    pub fn notrans_lock(&mut self, tobj: &TObject, me: Tid) -> (taken: bool)
        requires
            tobj.id < old(self)@.len(),
        ensures
            taken == old(self)@[tobj.id as int].lockable(me),
            final(self)@ == (if taken {
                old(self)@.update(tobj.id as int, old(self)@[tobj.id as int].locked(me))
            } else {
                old(self)@
            }),
    {
        self.lock(tobj.id, me)
    }

    pub fn lock(&mut self, id: ObjectId, me: Tid) -> (taken: bool)
        requires
            id < old(self)@.len(),
        ensures
            taken == old(self)@[id as int].lockable(me),
            final(self)@ == (if taken {
                old(self)@.update(id as int, old(self)@[id as int].locked(me))
            } else {
                old(self)@
            }),
    {
        self.objects[id].lock(me)
    }

    pub fn unlock(&mut self, id: ObjectId)
        requires
            id < old(self)@.len(),
        ensures
            final(self)@ == old(self)@.update(id as int, old(self)@[id as int].unlocked()),
    {
        self.objects[id].unlock();
    }

    pub fn install(&mut self, id: ObjectId, val: T, writer: Tid)
        requires
            id < old(self)@.len(),
        ensures
            final(self)@ == old(self)@.update(
                id as int,
                old(self)@[id as int].installed(val, writer),
            ),
    {
        self.objects[id].install(val, writer);
    }

    pub fn set_writer_info(&mut self, id: ObjectId, info: TxnRef)
        requires
            id < old(self)@.len(),
        ensures
            final(self)@ == old(self)@.update(id as int, old(self)@[id as int].accessed_by(info)),
    {
        self.objects[id].set_writer_info(info);
    }
}

/// What a transaction has written to an object.
pub enum WriteSlot<T> {
    /// Nothing.
    Clean,
    /// A value that is not in the object yet.
    Pending(T),
    /// A value that has moved into the object.
    Installed,
}

/// What a transaction remembers of one object: the version under which it first
/// read the object, and what it wrote.
pub struct TTag<T> {
    pub tobj: TObject,
    pub vers: Option<u64>,
    pub write: WriteSlot<T>,
}

impl<T> TTag<T> {
    pub open spec fn wrote(self) -> bool {
        self.write !is Clean
    }

    /// The tag once the object has been read under `version`: the version of the
    /// first read stays.
    pub open spec fn with_read(self, version: u64) -> TTag<T> {
        if self.vers is Some {
            self
        } else {
            TTag { vers: Some(version), ..self }
        }
    }

    pub open spec fn with_write(self, val: T) -> TTag<T> {
        TTag { write: WriteSlot::Pending(val), ..self }
    }

    pub fn new(tobj: TObject) -> (tag: TTag<T>)
        ensures
            tag == (TTag { tobj, vers: None, write: WriteSlot::<T>::Clean }),
    {
        TTag { tobj, vers: None, write: WriteSlot::Clean }
    }

    pub fn has_read(&self) -> (b: bool)
        ensures
            b == (self.vers is Some),
    {
        self.vers.is_some()
    }

    pub fn has_write(&self) -> (b: bool)
        ensures
            b == self.wrote(),
    {
        match self.write {
            WriteSlot::Clean => false,
            _ => true,
        }
    }

    pub fn add_version(&mut self, version: u64)
        ensures
            *final(self) == old(self).with_read(version),
    {
        if self.vers.is_none() {
            self.vers = Some(version);
        }
    }

    pub fn write(&mut self, val: T)
        ensures
            *final(self) == old(self).with_write(val),
    {
        self.write = WriteSlot::Pending(val);
    }

    /// The pending value, if there is one.
    pub fn write_value(&self) -> (val: Option<&T>)
        ensures
            match self.write {
                WriteSlot::Pending(v) => val == Some(&v),
                _ => val is None,
            },
    {
        match &self.write {
            WriteSlot::Pending(v) => Some(v),
            _ => None,
        }
    }

    /// Moves a pending value into the object.
    pub fn commit_data(&mut self, id: Tid, store: &mut ObjectStore<T>)
        requires
            old(self).tobj.id < old(store)@.len(),
        ensures
            match old(self).write {
                WriteSlot::Pending(v) => {
                    &&& *final(self) == (TTag { write: WriteSlot::Installed, ..*old(self) })
                    &&& final(store)@ == old(store)@.update(
                        old(self).tobj.id as int,
                        old(store)@[old(self).tobj.id as int].installed(v, id),
                    )
                },
                _ => *final(self) == *old(self) && final(store)@ == old(store)@,
            },
    {
        if self.write_value().is_some() {
            let mut slot: WriteSlot<T> = WriteSlot::Installed;
            core::mem::swap(&mut slot, &mut self.write);
            if let WriteSlot::Pending(v) = slot {
                store.install(self.tobj.id, v, id);
            }
        }
    }
}

} // verus!
