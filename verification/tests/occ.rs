use std::collections::HashMap;

use pnvm_lib::parnvm::nvm_txn::{TransactionPar, TransactionParBase};
use pnvm_lib::parnvm::nvm_txn_occ::{PieceAction, TransactionParOCC};
use pnvm_lib::piece::{Pid, Piece};
use pnvm_lib::plog::{DataRecord, Layout, PLog};
use pnvm_lib::tcore::ObjectStore;
use pnvm_lib::txn::{Tid, TxState, TxnTable};

fn txn<T>(id: u32, txns: &mut TxnTable) -> TransactionParOCC<T> {
    TransactionParOCC::new(Vec::new(), Tid::new(id), String::from("txn"), txns)
}

#[test]
fn test_single_read() {
    let mut txns = TxnTable::new(false);
    let mut store: ObjectStore<u32> = ObjectStore::new();
    let tb = store.create(1);
    let mut tx = txn(1, &mut txns);
    let _val = *tx.read(&tb, &store);
    tx.try_commit_piece(0, &mut store, &mut txns);
}

#[test]
fn test_single_write() {
    let mut txns = TxnTable::new(false);
    let mut store: ObjectStore<u32> = ObjectStore::new();
    let tb = store.create(1);
    let mut tx = txn(1, &mut txns);
    tx.write(&tb, 2);
    assert_eq!(tx.try_commit_piece(0, &mut store, &mut txns).committed(), true);
    assert_eq!(*store.notrans_read(&tb), 2);
}

#[test]
fn test_concurrent_read() {
    let mut txns = TxnTable::new(false);
    let mut store: ObjectStore<u32> = ObjectStore::new();
    let tb1 = store.create(1);
    let tb2 = store.create(2);

    let mut tx1 = txn(1, &mut txns);
    let mut tx2 = txn(2, &mut txns);

    assert_eq!(*tx1.read(&tb1, &store), 1);
    assert_eq!(*tx2.read(&tb1, &store), 1);

    assert_eq!(*tx1.read(&tb1, &store), 1);
    assert_eq!(*tx2.read(&tb2, &store), 2);

    assert_eq!(tx1.try_commit_piece(0, &mut store, &mut txns).committed(), true);
    assert_eq!(tx2.try_commit_piece(0, &mut store, &mut txns).committed(), true);
}

#[test]
fn test_dirty_read_should_abort() {
    let mut txns = TxnTable::new(false);
    let mut store: ObjectStore<u32> = ObjectStore::new();
    let tb1 = store.create(1);

    let mut tx1 = txn(1, &mut txns);
    let mut tx2 = txn(2, &mut txns);

    assert_eq!(*tx1.read(&tb1, &store), 1);
    tx2.write(&tb1, 2);

    assert_eq!(tx2.try_commit_piece(0, &mut store, &mut txns).committed(), true);
    assert_eq!(tx1.try_commit_piece(0, &mut store, &mut txns).committed(), false);
}

#[test]
fn test_writes_in_order() {
    let mut txns = TxnTable::new(false);
    let mut store: ObjectStore<u32> = ObjectStore::new();
    let tb1 = store.create(1);

    let mut tx1 = txn(1, &mut txns);
    let mut tx2 = txn(2, &mut txns);

    tx1.write(&tb1, 10);
    tx2.write(&tb1, 9999);

    assert_eq!(tx2.try_commit_piece(0, &mut store, &mut txns).committed(), true);
    assert_eq!(*store.notrans_read(&tb1), 9999);
    assert_eq!(tx1.try_commit_piece(0, &mut store, &mut txns).committed(), true);
    assert_eq!(*store.notrans_read(&tb1), 10);
}

#[test]
fn test_read_own_write() {
    let mut txns = TxnTable::new(false);
    let mut store: ObjectStore<u32> = ObjectStore::new();
    let tb1 = store.create(1);

    let mut tx1 = txn(1, &mut txns);
    assert_eq!(*tx1.read(&tb1, &store), 1);
    tx1.write(&tb1, 10);
    assert_eq!(*tx1.read(&tb1, &store), 10);
    assert_eq!(*store.notrans_read(&tb1), 1);

    assert_eq!(tx1.try_commit_piece(0, &mut store, &mut txns).committed(), true);
    assert_eq!(*store.notrans_read(&tb1), 10);
}

#[test]
fn test_conflict_write_aborts() {
    let mut txns = TxnTable::new(false);
    let mut store: ObjectStore<u32> = ObjectStore::new();
    let tb = store.create(1);

    let mut tx = txn(1, &mut txns);
    tx.write(&tb, 2);
    assert_eq!(*tx.read(&tb, &store), 2);

    store.notrans_lock(&tb, Tid::new(99));

    assert_eq!(tx.try_commit_piece(0, &mut store, &mut txns).committed(), false);
    assert_eq!(*store.notrans_read(&tb), 1);
}

#[test]
fn test_read_string() {
    let mut txns = TxnTable::new(false);
    let mut store: ObjectStore<String> = ObjectStore::new();
    let tb = store.create(String::from("hillo"));

    let mut tx = txn(1, &mut txns);
    assert_eq!(*tx.read(&tb, &store), String::from("hillo"));

    tx.write(&tb, String::from("world"));
    assert_eq!(*tx.read(&tb, &store), String::from("world"));

    assert_eq!(*store.notrans_read(&tb), String::from("hillo"));
    assert_eq!(tx.try_commit_piece(0, &mut store, &mut txns).committed(), true);
    assert_eq!(*store.notrans_read(&tb), String::from("world"));
}

#[test]
fn test_read_hashmap() {
    let mut txns = TxnTable::new(false);
    let mut store: ObjectStore<HashMap<u32, u32>> = ObjectStore::new();
    let tb = store.create(HashMap::new());

    let mut tx = txn(1, &mut txns);
    assert!(tx.read(&tb, &store).is_empty());
    let mut map = HashMap::new();
    map.insert(7, 70);
    tx.write(&tb, map);
    assert_eq!(tx.read(&tb, &store).get(&7), Some(&70));
    assert!(store.notrans_read(&tb).is_empty());
}

#[test]
fn commit_frees_and_stamps_the_written_object() {
    let mut txns = TxnTable::new(false);
    let mut store: ObjectStore<u32> = ObjectStore::new();
    let tb = store.create(1);
    let untouched = store.create(5);
    let mut tx = txn(4, &mut txns);
    tx.write(&tb, 2);
    assert!(tx.try_commit_piece(3, &mut store, &mut txns).committed());

    let object = store.get(tb.get_id());
    assert_eq!(object.version, 1);
    assert_eq!(object.owner, None);
    assert_eq!(object.last_writer, Some(Tid::new(4)));
    assert_eq!(object.writer_info, Some(*tx.base().txn_info()));
    assert_eq!(tx.base().cur_rank(&txns), 3);

    let other = store.get(untouched.get_id());
    assert_eq!(other.data, 5);
    assert_eq!(other.version, 0);
    assert_eq!(other.writer_info, None);
}

#[test]
fn reader_is_noted_but_does_not_write() {
    let mut txns = TxnTable::new(false);
    let mut store: ObjectStore<u32> = ObjectStore::new();
    let tb = store.create(1);
    let mut tx = txn(4, &mut txns);
    assert_eq!(*tx.read(&tb, &store), 1);
    assert!(tx.try_commit_piece(0, &mut store, &mut txns).committed());
    let object = store.get(tb.get_id());
    assert_eq!(object.version, 0);
    assert_eq!(object.last_writer, None);
    assert_eq!(object.writer_info, Some(*tx.base().txn_info()));
}

#[test]
fn first_read_counts() {
    let mut txns = TxnTable::new(false);
    let mut store: ObjectStore<u32> = ObjectStore::new();
    let tb = store.create(1);
    let mut tx1 = txn(1, &mut txns);
    let mut tx2 = txn(2, &mut txns);
    assert_eq!(*tx1.read(&tb, &store), 1);
    tx2.write(&tb, 2);
    assert!(tx2.try_commit_piece(0, &mut store, &mut txns).committed());
    assert_eq!(*tx1.read(&tb, &store), 2);
    assert!(!tx1.try_commit_piece(0, &mut store, &mut txns).committed());
}

#[test]
fn stale_read_is_noticed_though_the_same_value_is_back() {
    let mut txns = TxnTable::new(false);
    let mut store: ObjectStore<u32> = ObjectStore::new();
    let tb = store.create(1);
    let mut tx1 = txn(1, &mut txns);
    let mut tx2 = txn(2, &mut txns);
    assert_eq!(*tx1.read(&tb, &store), 1);
    for val in [2, 1] {
        tx2.write(&tb, val);
        assert!(tx2.try_commit_piece(0, &mut store, &mut txns).committed());
    }
    assert_eq!(*store.notrans_read(&tb), 1);
    assert!(!tx1.try_commit_piece(0, &mut store, &mut txns).committed());
}

#[test]
fn failed_commit_changes_no_data_and_starts_afresh() {
    let mut txns = TxnTable::new(false);
    let mut store: ObjectStore<u32> = ObjectStore::new();
    let a = store.create(1);
    let b = store.create(2);
    let mut tx1 = txn(1, &mut txns);
    let mut tx2 = txn(2, &mut txns);
    assert_eq!(*tx1.read(&a, &store), 1);
    tx1.write(&b, 20);
    tx2.write(&a, 10);
    assert!(tx2.try_commit_piece(0, &mut store, &mut txns).committed());
    assert!(!tx1.try_commit_piece(7, &mut store, &mut txns).committed());
    assert_eq!(*store.notrans_read(&b), 2);
    assert_eq!(store.get(b.get_id()).version, 0);
    assert_eq!(store.get(b.get_id()).owner, None);
    assert_eq!(tx1.base().cur_rank(&txns), 0);
    assert_eq!(*tx1.read(&b, &store), 2);
    assert_eq!(*tx1.read(&a, &store), 10);
    assert!(tx1.try_commit_piece(7, &mut store, &mut txns).committed());
    assert_eq!(tx1.base().cur_rank(&txns), 7);
}

#[test]
fn failed_locking_frees_what_it_locked_and_what_blocked_it() {
    let mut txns = TxnTable::new(false);
    let mut store: ObjectStore<u32> = ObjectStore::new();
    let objects: Vec<_> = (0..8).map(|i| store.create(i)).collect();
    let held = store.create(100);
    let bystander = store.create(200);
    assert!(store.notrans_lock(&held, Tid::new(99)));
    assert!(store.notrans_lock(&bystander, Tid::new(98)));
    let mut tx = txn(1, &mut txns);
    for tobj in &objects {
        tx.write(tobj, 50);
    }
    tx.write(&held, 51);
    assert!(!tx.try_commit_piece(0, &mut store, &mut txns).committed());
    for (i, tobj) in objects.iter().enumerate() {
        assert_eq!(*store.notrans_read(tobj), i as u32);
        assert_eq!(store.get(tobj.get_id()).owner, None);
    }
    assert_eq!(*store.notrans_read(&held), 100);
    assert_eq!(store.get(held.get_id()).owner, None);
    assert_eq!(store.get(bystander.get_id()).owner, Some(Tid::new(98)));
}

#[test]
fn lock_is_held_by_one_and_kept_by_its_holder() {
    let mut store: ObjectStore<u32> = ObjectStore::new();
    let tb = store.create(1);
    assert!(store.notrans_lock(&tb, Tid::new(1)));
    assert!(store.notrans_lock(&tb, Tid::new(1)));
    assert!(!store.notrans_lock(&tb, Tid::new(2)));
    store.unlock(tb.get_id());
    assert!(store.notrans_lock(&tb, Tid::new(2)));
}

#[test]
fn own_lock_does_not_keep_from_committing() {
    let mut txns = TxnTable::new(false);
    let mut store: ObjectStore<u32> = ObjectStore::new();
    let tb = store.create(1);
    let mut tx = txn(1, &mut txns);
    assert!(store.notrans_lock(&tb, Tid::new(1)));
    tx.write(&tb, 2);
    assert!(tx.try_commit_piece(0, &mut store, &mut txns).committed());
    assert_eq!(*store.notrans_read(&tb), 2);
}

#[test]
fn locked_object_can_be_read() {
    let mut txns = TxnTable::new(false);
    let mut store: ObjectStore<u32> = ObjectStore::new();
    let tb = store.create(1);
    assert!(store.notrans_lock(&tb, Tid::new(9)));
    let mut tx = txn(1, &mut txns);
    assert_eq!(*tx.read(&tb, &store), 1);
    assert!(tx.try_commit_piece(0, &mut store, &mut txns).committed());
    assert_eq!(store.get(tb.get_id()).owner, Some(Tid::new(9)));
}

#[test]
fn commit_makes_depend_on_uncommitted_accessors_only() {
    let mut txns = TxnTable::new(false);
    let mut store: ObjectStore<u32> = ObjectStore::new();
    let a = store.create(1);
    let b = store.create(2);
    let mut tx1 = txn(1, &mut txns);
    let mut tx2 = txn(2, &mut txns);
    let mut tx3 = txn(3, &mut txns);
    tx1.write(&a, 10);
    assert!(tx1.try_commit_piece(1, &mut store, &mut txns).committed());
    tx2.write(&b, 20);
    assert!(tx2.try_commit_piece(1, &mut store, &mut txns).committed());
    tx2.base().commit(&mut txns);

    assert_eq!(*tx3.read(&a, &store), 10);
    assert_eq!(*tx3.read(&b, &store), 20);
    assert!(tx3.try_commit_piece(1, &mut store, &mut txns).committed());
    assert!(!tx3.base().wait_deps_commit(&txns));
    tx1.base().commit(&mut txns);
    assert!(tx3.base().wait_deps_commit(&txns));
}

#[test]
fn second_piece_on_the_same_object_depends_on_itself() {
    let mut txns = TxnTable::new(false);
    let mut store: ObjectStore<u32> = ObjectStore::new();
    let a = store.create(1);
    let mut tx = txn(1, &mut txns);
    tx.write(&a, 2);
    assert!(tx.try_commit_piece(1, &mut store, &mut txns).committed());
    assert!(tx.base().wait_deps_commit(&txns));
    tx.write(&a, 3);
    assert!(tx.try_commit_piece(2, &mut store, &mut txns).committed());
    assert!(tx.base().wait_deps_start(&txns));
    assert!(!tx.base().wait_deps_commit(&txns));
}

#[test]
fn piece_is_run_again_as_long_as_it_commits() {
    let mut txns = TxnTable::new(false);
    let mut store: ObjectStore<u32> = ObjectStore::new();
    let a = store.create(1);
    let piece = Piece::new(Pid::new(0), String::from("t"), String::from("p"), 6);
    let mut tx = txn(1, &mut txns);
    assert!(matches!(tx.execute_piece(&piece), PieceAction::Run));
    for val in [2, 3] {
        tx.write(&a, val);
        assert!(matches!(tx.step_piece(&mut store, &mut txns), PieceAction::Run));
        assert_eq!(*store.notrans_read(&a), val);
        assert_eq!(tx.base().cur_rank(&txns), 6);
    }
    tx.write(&a, 4);
    assert!(store.notrans_lock(&a, Tid::new(9)));
    assert!(matches!(tx.step_piece(&mut store, &mut txns), PieceAction::Aborted));
    assert_eq!(*store.notrans_read(&a), 3);
    assert!(tx.try_commit_piece(7, &mut store, &mut txns).committed());
}

#[test]
fn durable_commit_logs_installs_flushes_and_records() {
    let mut txns = TxnTable::new(true);
    let mut store: ObjectStore<u32> = ObjectStore::new();
    let a = store.create(1);
    let layout = Layout { size: 4, align: 4 };
    let mut tx = txn(5, &mut txns);
    let mut rival = txn(6, &mut txns);
    assert_eq!(*tx.read(&a, &store), 1);
    tx.write(&a, 2);
    tx.base().add_record(Some(64), layout);
    tx.base().add_record(None, layout);

    match tx.try_commit_piece(3, &mut store, &mut txns) {
        PieceAction::Log(logs) => assert_eq!(
            logs,
            vec![PLog::new(64, layout, Tid::new(5)), PLog::new_none(layout, Tid::new(5))]
        ),
        _ => panic!("log expected"),
    }
    assert_eq!(*store.notrans_read(&a), 1);
    assert_eq!(store.get(a.get_id()).owner, Some(Tid::new(5)));

    match tx.step_piece(&mut store, &mut txns) {
        PieceAction::Flush(records) => {
            assert_eq!(records, vec![DataRecord { ptr: Some(64), layout }])
        }
        _ => panic!("flush expected"),
    }
    assert_eq!(*store.notrans_read(&a), 2);
    assert_eq!(store.get(a.get_id()).owner, Some(Tid::new(5)));
    assert_eq!(tx.base().cur_rank(&txns), 0);

    assert!(matches!(tx.step_piece(&mut store, &mut txns), PieceAction::PersistCommit(5)));
    assert_eq!(store.get(a.get_id()).owner, Some(Tid::new(5)));
    assert_eq!(tx.base().cur_rank(&txns), 0);

    assert!(tx.step_piece(&mut store, &mut txns).committed());
    assert_eq!(store.get(a.get_id()).owner, None);
    assert_eq!(tx.base().cur_rank(&txns), 3);
    assert_eq!(*rival.read(&a, &store), 2);
}

#[test]
fn durable_commit_keeps_rivals_out_while_it_logs() {
    let mut txns = TxnTable::new(true);
    let mut store: ObjectStore<u32> = ObjectStore::new();
    let a = store.create(1);
    let b = store.create(2);
    let mut tx = txn(5, &mut txns);
    let mut reader = txn(6, &mut txns);
    let mut writer = txn(7, &mut txns);
    tx.write(&a, 10);
    assert!(matches!(tx.try_commit_piece(1, &mut store, &mut txns), PieceAction::Log(_)));
    assert_eq!(*reader.read(&a, &store), 1);
    writer.write(&b, 20);
    assert!(matches!(writer.try_commit_piece(1, &mut store, &mut txns), PieceAction::Log(_)));
    assert_eq!(store.get(a.get_id()).owner, Some(Tid::new(5)));
    assert!(matches!(tx.step_piece(&mut store, &mut txns), PieceAction::Flush(_)));
    assert!(matches!(
        reader.try_commit_piece(1, &mut store, &mut txns),
        PieceAction::Aborted
    ));
    assert_eq!(store.get(a.get_id()).owner, Some(Tid::new(5)));
}

#[test]
fn durable_piece_that_cannot_commit_is_not_logged() {
    let mut txns = TxnTable::new(true);
    let mut store: ObjectStore<u32> = ObjectStore::new();
    let a = store.create(1);
    let mut tx = txn(5, &mut txns);
    tx.write(&a, 2);
    assert!(store.notrans_lock(&a, Tid::new(9)));
    assert!(matches!(tx.try_commit_piece(1, &mut store, &mut txns), PieceAction::Aborted));
    assert_eq!(*store.notrans_read(&a), 1);
}

#[test]
fn durable_piece_is_run_again_once_its_record_is_written() {
    let mut txns = TxnTable::new(true);
    let mut store: ObjectStore<u32> = ObjectStore::new();
    let a = store.create(1);
    let piece = Piece::new(Pid::new(0), String::from("t"), String::from("p"), 6);
    let mut tx = txn(1, &mut txns);
    assert!(matches!(tx.execute_piece(&piece), PieceAction::Run));
    tx.write(&a, 2);
    assert!(matches!(tx.step_piece(&mut store, &mut txns), PieceAction::Log(_)));
    assert!(matches!(tx.step_piece(&mut store, &mut txns), PieceAction::Flush(_)));
    assert!(matches!(tx.step_piece(&mut store, &mut txns), PieceAction::PersistCommit(1)));
    assert!(matches!(tx.step_piece(&mut store, &mut txns), PieceAction::Run));
    assert_eq!(*tx.read(&a, &store), 2);
}

#[test]
fn occ_transaction_takes_pieces_and_name_from_its_base() {
    let mut txns = TxnTable::new(false);
    let pieces = vec![Piece::new(Pid::new(3), String::from("t"), String::from("p"), 6)];
    let base = TransactionParBase::new(pieces, String::from("base"));
    let mut tx: TransactionParOCC<u32> =
        TransactionParOCC::new_from_base(&base, Tid::new(8), &mut txns);
    let par: &mut TransactionPar = tx.base();
    assert_eq!(*par.id(), Tid::new(8));
    assert_eq!(par.name(), "base");
    assert_eq!(*par.status(), TxState::EMBRYO);
    assert_eq!(par.get_next_piece().unwrap().pid, Pid::new(3));
    assert!(par.get_next_piece().is_none());
}

#[test]
fn accesses_to_different_objects_are_apart() {
    let mut txns = TxnTable::new(false);
    let mut store: ObjectStore<u32> = ObjectStore::new();
    let a = store.create(1);
    let b = store.create(2);
    let mut tx = txn(1, &mut txns);
    let mut reader = txn(2, &mut txns);
    tx.write(&a, 10);
    assert_eq!(*tx.read(&b, &store), 2);
    assert_eq!(*tx.read(&a, &store), 10);
    tx.write(&a, 11);
    assert_eq!(*tx.read(&b, &store), 2);
    assert_eq!(*reader.read(&b, &store), 2);
    assert!(tx.try_commit_piece(0, &mut store, &mut txns).committed());
    assert_eq!(*reader.read(&a, &store), 11);
    assert_eq!(*reader.read(&b, &store), 2);
    assert!(reader.try_commit_piece(0, &mut store, &mut txns).committed());
}

#[test]
fn new_objects_and_transactions_do_not_disturb_a_piece() {
    let mut txns = TxnTable::new(false);
    let mut store: ObjectStore<u32> = ObjectStore::new();
    let a = store.create(1);
    let mut tx = txn(1, &mut txns);
    assert_eq!(*tx.read(&a, &store), 1);
    let mut other = txn(2, &mut txns);
    let b = store.create(2);
    other.write(&b, 20);
    assert!(other.try_commit_piece(0, &mut store, &mut txns).committed());
    tx.write(&a, 10);
    assert!(tx.try_commit_piece(0, &mut store, &mut txns).committed());
    assert_eq!(*store.notrans_read(&a), 10);
    assert_eq!(*store.notrans_read(&b), 20);
}

#[test]
fn version_wraps() {
    let mut store: ObjectStore<u32> = ObjectStore::new();
    let a = store.create(1);
    store.install(a.get_id(), 2, Tid::new(1));
    assert!(store.get(a.get_id()).check(1));
    let mut object = pnvm_lib::tcore::TBox::new(1u32);
    object.version = u64::MAX;
    object.install(2, Tid::new(1));
    assert_eq!(object.get_version(), 0);
    assert_eq!(*object.get_data(), 2);
}
