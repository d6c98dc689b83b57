use pnvm_lib::parnvm::nvm_txn::{ThreadTxn, TransactionPar, TransactionParBase, TxnAction};
use pnvm_lib::piece::{Pid, Piece};
use pnvm_lib::plog::{DataRecord, Layout, PLog};
use pnvm_lib::tcore::BenchmarkCounter;
use pnvm_lib::txn::{Tid, TxState, TxnInfo, TxnRef, TxnTable};
use pnvm_lib::workload::{workload_deps, workload_plan};

fn piece(pid: u32, title: &str) -> Piece {
    Piece::new(Pid::new(pid), String::from("TXN"), String::from(title), 0)
}

fn titled(action: TxnAction) -> String {
    match action {
        TxnAction::Wait => String::from("wait"),
        TxnAction::Run(piece) => piece.title,
        TxnAction::PersistTxn(id) => format!("persist {}", id),
        TxnAction::Flush(records) => format!("flush {}", records.len()),
        TxnAction::Done => String::from("done"),
    }
}

#[test]
fn new_transaction_has_not_begun() {
    let mut txns = TxnTable::new(false);
    let tx = TransactionPar::new(vec![piece(0, "a")], Tid::new(5), String::from("TXN"), &mut txns);
    assert_eq!(*tx.id(), Tid::new(5));
    assert_eq!(tx.name(), "TXN");
    assert_eq!(*tx.status(), TxState::EMBRYO);
    assert_eq!(tx.cur_rank(&txns), 0);
    assert!(tx.has_next_piece());
    assert_eq!(
        *txns.info(*tx.txn_info()),
        TxnInfo { tid: Tid::new(5), committed: false, persisted: false, rank: 0 }
    );
}

#[test]
fn base_makes_any_number_of_transactions() {
    let mut txns = TxnTable::new(false);
    let base = TransactionParBase::new(
        vec![piece(1, "second"), piece(0, "first")],
        String::from("TXN_1"),
    );
    for tid in [1, 3] {
        let mut tx = TransactionPar::new_from_base(&base, Tid::new(tid), &mut txns);
        assert_eq!(*tx.id(), Tid::new(tid));
        assert_eq!(tx.name(), "TXN_1");
        assert_eq!(*tx.status(), TxState::EMBRYO);
        assert_eq!(tx.get_next_piece().unwrap().title, "first");
        assert_eq!(tx.get_next_piece().unwrap().title, "second");
        assert!(tx.get_next_piece().is_none());
    }
    let copy = base.clone();
    let mut tx = TransactionPar::new_from_base(&copy, Tid::new(4), &mut txns);
    assert_eq!(tx.name(), "TXN_1");
    assert_eq!(tx.get_next_piece().unwrap().pid, Pid::new(0));
}

#[test]
fn waiting_piece_comes_first_then_the_last_added() {
    let mut txns = TxnTable::new(false);
    let mut tx = TransactionPar::new(vec![piece(0, "a")], Tid::new(1), String::new(), &mut txns);
    tx.add_piece(piece(1, "b"));
    tx.add_wait(piece(2, "dropped"));
    tx.add_wait(piece(3, "c"));
    assert_eq!(tx.get_next_piece().unwrap().title, "c");
    assert_eq!(tx.get_next_piece().unwrap().title, "b");
    assert!(tx.has_next_piece());
    assert_eq!(tx.get_next_piece().unwrap().title, "a");
    assert!(!tx.has_next_piece());
    tx.add_wait(piece(4, "d"));
    assert!(!tx.has_next_piece());
    assert_eq!(tx.get_next_piece().unwrap().title, "d");
    assert!(tx.get_next_piece().is_none());
}

#[test]
fn execution_runs_every_piece_and_commits() {
    let mut txns = TxnTable::new(false);
    let mut tx = TransactionPar::new(
        vec![piece(2, "c"), piece(1, "b"), piece(0, "a")],
        Tid::new(1),
        String::new(),
        &mut txns,
    );
    assert_eq!(titled(tx.execute_txn(&mut txns)), "a");
    assert_eq!(*tx.status(), TxState::ACTIVE);
    assert!(!txns.info(*tx.txn_info()).has_commit());
    assert_eq!(titled(tx.step_txn(&mut txns)), "b");
    assert_eq!(*tx.status(), TxState::COMMITTED);
    assert!(txns.info(*tx.txn_info()).has_commit());
    assert_eq!(txns.success_count(), 1);
    assert_eq!(titled(tx.step_txn(&mut txns)), "c");
    assert_eq!(titled(tx.step_txn(&mut txns)), "done");
    assert_eq!(*tx.status(), TxState::COMMITTED);
    assert_eq!(txns.success_count(), 4);
    assert!(!txns.info(*tx.txn_info()).has_persist());
}

#[test]
fn execution_can_be_repeated() {
    let mut txns = TxnTable::new(false);
    let mut tx = TransactionPar::new(Vec::new(), Tid::new(1), String::new(), &mut txns);
    assert_eq!(titled(tx.execute_txn(&mut txns)), "done");
    tx.add_piece(piece(0, "more"));
    assert_eq!(titled(tx.execute_txn(&mut txns)), "more");
    assert_eq!(*tx.status(), TxState::ACTIVE);
    assert_eq!(titled(tx.step_txn(&mut txns)), "done");
    assert_eq!(txns.success_count(), 3);
}

#[test]
fn work_can_add_pieces() {
    let mut txns = TxnTable::new(false);
    let mut tx = TransactionPar::new(vec![piece(0, "a")], Tid::new(1), String::new(), &mut txns);
    assert_eq!(titled(tx.execute_txn(&mut txns)), "a");
    tx.add_piece(piece(1, "b"));
    assert_eq!(titled(tx.step_txn(&mut txns)), "b");
    assert_eq!(titled(tx.step_txn(&mut txns)), "done");
}

#[test]
fn piece_waits_for_a_dependency_to_catch_up() {
    let mut txns = TxnTable::new(false);
    let dep = TransactionPar::new(Vec::new(), Tid::new(1), String::new(), &mut txns);
    let mut tx = TransactionPar::new(vec![piece(0, "a")], Tid::new(2), String::new(), &mut txns);
    tx.add_dep(1, *dep.txn_info());
    tx.update_rank(2, &mut txns);
    assert!(!tx.wait_deps_start(&txns));
    assert_eq!(titled(tx.execute_txn(&mut txns)), "wait");
    assert_eq!(titled(tx.step_txn(&mut txns)), "wait");
    dep.update_rank(1, &mut txns);
    assert_eq!(titled(tx.step_txn(&mut txns)), "wait");
    dep.update_rank(2, &mut txns);
    assert!(tx.wait_deps_start(&txns));
    assert_eq!(titled(tx.step_txn(&mut txns)), "a");
}

#[test]
fn piece_waits_for_a_dependency_to_commit() {
    let mut txns = TxnTable::new(false);
    let mut dep = TransactionPar::new(Vec::new(), Tid::new(1), String::new(), &mut txns);
    let mut tx = TransactionPar::new(vec![piece(0, "a")], Tid::new(2), String::new(), &mut txns);
    tx.add_dep(1, *dep.txn_info());
    tx.update_rank(2, &mut txns);
    assert_eq!(titled(tx.execute_txn(&mut txns)), "wait");
    dep.commit(&mut txns);
    assert_eq!(*dep.status(), TxState::COMMITTED);
    assert_eq!(titled(tx.step_txn(&mut txns)), "a");
}

#[test]
fn last_commit_waits_for_dependencies_to_commit() {
    let mut txns = TxnTable::new(false);
    let mut dep = TransactionPar::new(Vec::new(), Tid::new(1), String::new(), &mut txns);
    let mut tx = TransactionPar::new(Vec::new(), Tid::new(2), String::new(), &mut txns);
    tx.add_dep(1, *dep.txn_info());
    assert!(tx.wait_deps_start(&txns));
    assert!(!tx.wait_deps_commit(&txns));
    assert_eq!(titled(tx.execute_txn(&mut txns)), "wait");
    assert!(!txns.info(*tx.txn_info()).has_commit());
    assert_eq!(titled(dep.execute_txn(&mut txns)), "done");
    assert!(tx.wait_deps_commit(&txns));
    assert_eq!(titled(tx.step_txn(&mut txns)), "done");
    assert!(txns.info(*tx.txn_info()).has_commit());
}

#[test]
fn first_entry_of_a_dependency_stays() {
    let mut txns = TxnTable::new(false);
    let mut first = TransactionPar::new(Vec::new(), Tid::new(1), String::new(), &mut txns);
    let mut second = TransactionPar::new(Vec::new(), Tid::new(1), String::new(), &mut txns);
    let mut tx = TransactionPar::new(Vec::new(), Tid::new(2), String::new(), &mut txns);
    tx.add_dep(1, *first.txn_info());
    tx.add_dep(1, *second.txn_info());
    second.commit(&mut txns);
    assert!(!tx.wait_deps_commit(&txns));
    first.commit(&mut txns);
    assert!(tx.wait_deps_commit(&txns));
}

#[test]
fn running_piece_is_accounted_for_by_a_commit() {
    let mut txns = TxnTable::new(false);
    let mut tx = TransactionPar::new(Vec::new(), Tid::new(1), String::new(), &mut txns);
    assert_eq!(titled(tx.execute_piece(piece(0, "a"), &txns)), "a");
    assert!(!txns.info(*tx.txn_info()).has_commit());
    assert_eq!(titled(tx.step_txn(&mut txns)), "done");
    assert_eq!(*tx.status(), TxState::COMMITTED);
    assert!(txns.info(*tx.txn_info()).has_commit());
    assert_eq!(txns.success_count(), 1);
}

#[test]
fn lone_piece_leaves_the_list_alone() {
    let mut txns = TxnTable::new(true);
    let mut tx = TransactionPar::new(vec![piece(1, "b")], Tid::new(1), String::new(), &mut txns);
    assert_eq!(titled(tx.execute_piece(piece(0, "a"), &txns)), "a");
    assert_eq!(titled(tx.step_txn(&mut txns)), "persist 1");
    assert_eq!(titled(tx.step_txn(&mut txns)), "done");
    assert_eq!(*tx.status(), TxState::PERSIST);
    assert!(tx.has_next_piece());
}

#[test]
fn durable_commit_ends_in_persist() {
    let mut txns = TxnTable::new(true);
    let mut dep = TransactionPar::new(Vec::new(), Tid::new(1), String::new(), &mut txns);
    let mut tx = TransactionPar::new(Vec::new(), Tid::new(2), String::new(), &mut txns);
    tx.add_dep(1, *dep.txn_info());
    assert_eq!(titled(tx.commit(&mut txns)), "wait");
    assert!(txns.info(*tx.txn_info()).has_commit());
    assert_eq!(*tx.status(), TxState::COMMITTED);
    assert_eq!(titled(tx.step_txn(&mut txns)), "wait");
    assert_eq!(titled(dep.commit(&mut txns)), "persist 1");
    assert_eq!(titled(tx.step_txn(&mut txns)), "wait");
    assert_eq!(titled(dep.step_txn(&mut txns)), "done");
    assert_eq!(*dep.status(), TxState::PERSIST);
    assert_eq!(titled(tx.step_txn(&mut txns)), "persist 2");
    assert!(!txns.info(*tx.txn_info()).has_persist());
    assert_eq!(titled(tx.step_txn(&mut txns)), "done");
    assert!(txns.info(*tx.txn_info()).has_persist());
    assert_eq!(*tx.status(), TxState::PERSIST);
    assert_eq!(txns.success_count(), 2);
}

#[test]
fn work_can_commit_and_goes_on_running() {
    for pmem in [false, true] {
        let mut txns = TxnTable::new(pmem);
        let mut tx = TransactionPar::new(
            vec![piece(1, "b"), piece(0, "a")],
            Tid::new(1),
            String::new(),
            &mut txns,
        );
        assert_eq!(titled(tx.execute_txn(&mut txns)), "a");
        let mut action = titled(tx.commit(&mut txns));
        if pmem {
            assert_eq!(action, "persist 1");
            action = titled(tx.step_txn(&mut txns));
        }
        assert_eq!(action, "done");
        assert_eq!(titled(tx.execute_piece(piece(9, "inner"), &txns)), "inner");
        action = titled(tx.step_txn(&mut txns));
        if pmem {
            assert_eq!(action, "persist 1");
            action = titled(tx.step_txn(&mut txns));
        }
        assert_eq!(action, "done");
        let mut rest: Vec<String> = Vec::new();
        while rest.last().map(|s| s.as_str()) != Some("done") {
            rest.push(titled(tx.step_txn(&mut txns)));
        }
        if pmem {
            assert_eq!(
                rest,
                vec!["persist 1", "flush 0", "b", "persist 1", "flush 0", "persist 1", "done"]
            );
        } else {
            assert_eq!(rest, vec!["b", "done"]);
        }
        assert_eq!(txns.success_count(), 5);
    }
}

#[test]
fn persistent_memory_adds_commit_records_and_flushes() {
    let mut txns = TxnTable::new(true);
    let mut tx = TransactionPar::new(vec![piece(0, "a")], Tid::new(7), String::new(), &mut txns);
    assert_eq!(titled(tx.execute_txn(&mut txns)), "a");
    let layout = Layout { size: 8, align: 8 };
    tx.add_record(Some(4096), layout);
    tx.add_record(None, layout);
    assert_eq!(titled(tx.step_txn(&mut txns)), "persist 7");
    assert_eq!(*tx.status(), TxState::COMMITTED);
    match tx.step_txn(&mut txns) {
        TxnAction::Flush(records) => {
            assert_eq!(records, vec![DataRecord { ptr: Some(4096), layout }])
        }
        _ => panic!("flush expected"),
    }
    assert_eq!(*tx.status(), TxState::PERSIST);
    assert!(txns.info(*tx.txn_info()).has_persist());
    assert_eq!(titled(tx.step_txn(&mut txns)), "persist 7");
    assert_eq!(titled(tx.step_txn(&mut txns)), "done");
    assert_eq!(*tx.status(), TxState::PERSIST);
    assert_eq!(txns.success_count(), 2);
}

#[test]
fn commit_record_waits_for_dependencies_to_persist() {
    let mut txns = TxnTable::new(true);
    let mut dep = TransactionPar::new(Vec::new(), Tid::new(1), String::new(), &mut txns);
    let mut tx = TransactionPar::new(Vec::new(), Tid::new(2), String::new(), &mut txns);
    tx.add_dep(1, *dep.txn_info());
    assert_eq!(titled(dep.commit(&mut txns)), "persist 1");
    assert!(!tx.wait_deps_persist(&txns));
    assert_eq!(titled(tx.execute_txn(&mut txns)), "wait");
    assert_eq!(*tx.status(), TxState::COMMITTED);
    assert_eq!(titled(dep.step_txn(&mut txns)), "done");
    assert_eq!(*dep.status(), TxState::PERSIST);
    assert!(tx.wait_deps_persist(&txns));
    assert_eq!(titled(tx.step_txn(&mut txns)), "persist 2");
    assert_eq!(titled(tx.step_txn(&mut txns)), "done");
    assert_eq!(txns.success_count(), 2);
}

#[test]
fn logs_name_every_record_and_data_only_those_with_an_address() {
    let mut txns = TxnTable::new(true);
    let mut tx = TransactionPar::new(Vec::new(), Tid::new(7), String::new(), &mut txns);
    let small = Layout { size: 8, align: 8 };
    let large = Layout { size: 64, align: 16 };
    tx.add_record(Some(16), small);
    tx.add_record(None, large);
    tx.add_record(Some(32), large);
    assert_eq!(
        tx.persist_logs(),
        vec![
            PLog::new(16, small, Tid::new(7)),
            PLog::new_none(large, Tid::new(7)),
            PLog::new(32, large, Tid::new(7)),
        ]
    );
    assert_eq!(
        tx.persist_data(),
        vec![
            DataRecord { ptr: Some(16), layout: small },
            DataRecord { ptr: Some(32), layout: large },
        ]
    );
    assert!(tx.persist_logs().is_empty());
    assert!(tx.persist_data().is_empty());
}

#[test]
fn thread_has_a_current_transaction() {
    let mut txns = TxnTable::new(false);
    let mut cur = ThreadTxn::new(&mut txns);
    assert_eq!(*TransactionPar::get_thread_txn(&mut cur).id(), Tid::default());
    assert_eq!(titled(TransactionPar::execute(&mut cur, &mut txns)), "done");

    let tx = TransactionPar::new(vec![piece(0, "a")], Tid::new(3), String::new(), &mut txns);
    TransactionPar::register(&mut cur, tx);
    TransactionPar::get_thread_txn(&mut cur).add_piece(piece(1, "b"));
    assert_eq!(titled(TransactionPar::execute(&mut cur, &mut txns)), "b");
    assert_eq!(titled(TransactionPar::get_thread_txn(&mut cur).step_txn(&mut txns)), "a");
    assert_eq!(titled(TransactionPar::get_thread_txn(&mut cur).step_txn(&mut txns)), "done");

    let tx = TransactionPar::new(Vec::new(), Tid::new(4), String::new(), &mut txns);
    TransactionPar::set_thread_txn(&mut cur, tx);
    assert_eq!(*TransactionPar::get_thread_txn(&mut cur).id(), Tid::new(4));
}

#[test]
fn interleaved_transactions_write_in_piece_order() {
    let mut txns = TxnTable::new(false);
    let mut x = 1;
    let mut y = 2;
    let mut log: Vec<String> = Vec::new();

    let mut pieces_1 = vec![piece(0, "spinning_short"), piece(1, "write_y"), piece(2, "read_x")];
    pieces_1.reverse();
    let base1 = TransactionParBase::new(pieces_1, String::from("TXN_1"));
    let mut pieces_2 = vec![piece(0, "read_y"), piece(1, "spin_long"), piece(2, "write_x")];
    pieces_2.reverse();

    let mut running = vec![
        TransactionPar::new_from_base(&base1, Tid::new(1), &mut txns),
        TransactionPar::new_from_base(&base1, Tid::new(3), &mut txns),
        TransactionPar::new(pieces_2, Tid::new(2), String::from("TXN_2"), &mut txns),
    ];
    let on_first = *running[0].txn_info();
    running[2].add_dep(1, on_first);

    let mut finished: Vec<u32> = Vec::new();
    let mut done = 0;
    while done < 3 {
        done = 0;
        for tx in running.iter_mut() {
            if finished.contains(&tx.id().raw()) {
                done += 1;
                continue;
            }
            let action = if *tx.status() == TxState::EMBRYO {
                tx.execute_txn(&mut txns)
            } else {
                tx.step_txn(&mut txns)
            };
            if let TxnAction::Run(piece) = &action {
                match piece.title.as_str() {
                    "write_y" => y = 999,
                    "write_x" => x = 888,
                    _ => {}
                }
                log.push(format!("{} {}", tx.id().raw(), piece.title));
            } else if let TxnAction::Done = action {
                finished.push(tx.id().raw());
            }
        }
    }
    assert_eq!(y, 999);
    assert_eq!(x, 888);
    assert_eq!(
        log,
        vec![
            "1 spinning_short",
            "3 spinning_short",
            "2 read_y",
            "1 write_y",
            "3 write_y",
            "2 spin_long",
            "1 read_x",
            "3 read_x",
            "2 write_x",
        ]
    );
}

#[test]
fn progress_of_a_transaction_is_recorded() {
    let mut info = TxnInfo::new(Tid::new(6));
    assert_eq!(info.id(), Tid::new(6));
    assert_eq!(info.rank(), 0);
    assert!(info.has_done(0));
    assert!(!info.has_done(1));
    info.done(3);
    assert_eq!(info.rank(), 3);
    assert!(info.has_done(3));
    assert!(!info.has_done(4));
    assert!(!info.has_commit());
    assert!(!info.has_persist());
    info.commit();
    assert!(info.has_commit());
    assert!(!info.has_persist());
    info.persist();
    assert!(info.has_persist());
}

#[test]
fn table_enters_transactions_in_order() {
    let mut txns = TxnTable::new(true);
    assert!(txns.pmem());
    let mut first = TransactionPar::new(Vec::new(), Tid::new(4), String::new(), &mut txns);
    let mut second = TransactionPar::new(Vec::new(), Tid::new(4), String::new(), &mut txns);
    assert_eq!(*first.txn_info(), TxnRef(0));
    assert_eq!(*second.txn_info(), TxnRef(1));
    second.commit(&mut txns);
    assert!(!txns.info(TxnRef(0)).has_commit());
    assert!(txns.info(TxnRef(1)).has_commit());
    first.update_rank(9, &mut txns);
    assert_eq!(txns.info(TxnRef(0)).rank(), 9);
    assert_eq!(txns.info(TxnRef(1)).rank(), 0);
    first.commit(&mut txns);
    first.step_txn(&mut txns);
    assert!(txns.info(TxnRef(0)).has_persist());
    assert!(!txns.info(TxnRef(1)).has_persist());
    assert_eq!(txns.success_count(), 2);
}

#[test]
fn workload_names_two_dependencies() {
    assert_eq!(workload_deps(1), vec!["a1", "1"]);
    assert_eq!(workload_deps(2), vec!["a2", "2"]);
    assert_eq!(workload_deps(9), vec!["a0", "0"]);
    assert_eq!(workload_deps(u32::MAX), vec!["a0", "0"]);
}

#[test]
fn workload_has_nine_transactions() {
    let plan = workload_plan();
    let ids: Vec<u32> = plan.iter().map(|entry| entry.0).collect();
    assert_eq!(ids, vec![1, 2, 3, 4, 5, 6, 7, 8, 9]);
    assert_eq!(plan[0].1, vec!["a1", "1"]);
    assert_eq!(plan[8].1, vec!["a0", "0"]);
}

#[test]
fn work_can_execute_the_rest_of_the_transaction() {
    let mut txns = TxnTable::new(false);
    let mut tx = TransactionPar::new(
        vec![piece(1, "b"), piece(0, "a")],
        Tid::new(1),
        String::new(),
        &mut txns,
    );
    assert_eq!(titled(tx.execute_txn(&mut txns)), "a");
    assert_eq!(titled(tx.execute_txn(&mut txns)), "b");
    assert_eq!(*tx.status(), TxState::ACTIVE);
    assert!(!txns.info(*tx.txn_info()).has_commit());
    assert_eq!(txns.success_count(), 0);
    assert_eq!(titled(tx.step_txn(&mut txns)), "done");
    assert_eq!(txns.success_count(), 2);
    tx.add_piece(piece(2, "c"));
    assert_eq!(titled(tx.step_txn(&mut txns)), "c");
    assert_eq!(txns.success_count(), 3);
    assert_eq!(titled(tx.step_txn(&mut txns)), "done");
    assert_eq!(txns.success_count(), 5);
}

#[test]
fn nested_execution_waits_and_persists() {
    let mut txns = TxnTable::new(true);
    let mut dep = TransactionPar::new(Vec::new(), Tid::new(1), String::new(), &mut txns);
    let mut tx = TransactionPar::new(
        vec![piece(1, "b"), piece(0, "a")],
        Tid::new(2),
        String::new(),
        &mut txns,
    );
    assert_eq!(titled(tx.execute_piece(piece(9, "outer"), &txns)), "outer");
    assert_eq!(titled(tx.execute_txn(&mut txns)), "a");
    tx.add_dep(1, *dep.txn_info());
    assert_eq!(titled(tx.step_txn(&mut txns)), "wait");
    dep.commit(&mut txns);
    dep.step_txn(&mut txns);
    let mut actions: Vec<String> = Vec::new();
    while actions.last().map(|s| s.as_str()) != Some("done") {
        actions.push(titled(tx.step_txn(&mut txns)));
    }
    assert_eq!(
        actions,
        vec!["persist 2", "flush 0", "b", "persist 2", "flush 0", "persist 2", "done"]
    );
    assert_eq!(titled(tx.step_txn(&mut txns)), "persist 2");
    assert_eq!(titled(tx.step_txn(&mut txns)), "done");
    assert_eq!(*tx.status(), TxState::PERSIST);
    assert_eq!(titled(tx.execute_txn(&mut txns)), "persist 2");
}

#[test]
fn counter_wraps() {
    let mut counter = BenchmarkCounter::new();
    counter.success();
    assert_eq!(counter.success, 1);
    let mut full = BenchmarkCounter { success: u64::MAX };
    full.success();
    assert_eq!(full.success, 0);
}

#[test]
fn ready_transaction_never_waits() {
    let mut txns = TxnTable::new(true);
    let mut dep = TransactionPar::new(Vec::new(), Tid::new(1), String::new(), &mut txns);
    dep.commit(&mut txns);
    dep.step_txn(&mut txns);
    let mut tx = TransactionPar::new(vec![piece(0, "a")], Tid::new(2), String::new(), &mut txns);
    tx.add_dep(1, *dep.txn_info());
    tx.update_rank(5, &mut txns);
    let mut actions = vec![titled(tx.execute_txn(&mut txns))];
    for _ in 0..4 {
        actions.push(titled(tx.step_txn(&mut txns)));
    }
    assert_eq!(actions, vec!["a", "persist 2", "flush 0", "persist 2", "done"]);
}

#[test]
fn steps_change_the_own_entry_only() {
    let mut txns = TxnTable::new(false);
    let other = TransactionPar::new(Vec::new(), Tid::new(1), String::new(), &mut txns);
    let mut tx = TransactionPar::new(vec![piece(0, "a")], Tid::new(2), String::new(), &mut txns);
    other.update_rank(4, &mut txns);
    tx.update_rank(3, &mut txns);
    assert_eq!(titled(tx.execute_txn(&mut txns)), "a");
    assert_eq!(titled(tx.step_txn(&mut txns)), "done");
    assert_eq!(
        *txns.info(*other.txn_info()),
        TxnInfo { tid: Tid::new(1), committed: false, persisted: false, rank: 4 }
    );
    assert_eq!(
        *txns.info(*tx.txn_info()),
        TxnInfo { tid: Tid::new(2), committed: true, persisted: false, rank: 3 }
    );
}

#[test]
fn readiness_is_kept_when_others_go_on() {
    let mut txns = TxnTable::new(true);
    let mut dep = TransactionPar::new(Vec::new(), Tid::new(1), String::new(), &mut txns);
    let mut tx = TransactionPar::new(Vec::new(), Tid::new(2), String::new(), &mut txns);
    tx.add_dep(1, *dep.txn_info());
    dep.commit(&mut txns);
    dep.step_txn(&mut txns);
    let mut third = TransactionPar::new(Vec::new(), Tid::new(3), String::new(), &mut txns);
    third.commit(&mut txns);
    dep.update_rank(1, &mut txns);
    assert!(tx.wait_deps_start(&txns));
    assert!(tx.wait_deps_commit(&txns));
    assert!(tx.wait_deps_persist(&txns));
}
