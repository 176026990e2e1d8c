use evmstate::backend::MyBackend;
use evmstate::digest::logs_digest;
use evmstate::errors::Fault;
use evmstate::oracle::{
    build_pre_state, env_block, run_batch, run_scenario, Expectation, Mismatch, PostAccount,
    PreAccount, Scenario, ScenarioEnv, TransactionExec, Verdict,
};
use evmstate::resolve::{
    canonical_block_hash, resolve_requirement, run_resolution_loop, Commitment, Interpreter,
    Requirement, RunStatus, StepEvent,
};
use evmstate::state::{AccountChange, CallContext, LogRecord, StorageSlot};
use evmstate::words::{Address, W256};

fn w(x: u64) -> W256 {
    W256::from_u64(x)
}

fn addr(x: u64) -> Address {
    Address::from_u64(x)
}

/// A scripted stand-in for the external interpreter: it replays a
/// fixed list of step events and reports fixed results.
struct ScriptInterp {
    events: Vec<StepEvent>,
    pos: usize,
    out_bytes: Vec<u8>,
    gas_left: W256,
    // (address, balance, nonce, code, changed slots)
    changes: Vec<(Address, u64, u64, Vec<u8>, Vec<(u64, u64)>)>,
    // (address, topics, data)
    log_entries: Vec<(Address, Vec<u64>, Vec<u8>)>,
    // (destination, gas limit, value, data)
    calls: Vec<(Address, u64, u64, Vec<u8>)>,
    account_commits: usize,
    blockhash_commits: usize,
}

fn script(events: Vec<StepEvent>) -> ScriptInterp {
    ScriptInterp {
        events,
        pos: 0,
        out_bytes: Vec::new(),
        gas_left: W256::zero(),
        changes: Vec::new(),
        log_entries: Vec::new(),
        calls: Vec::new(),
        account_commits: 0,
        blockhash_commits: 0,
    }
}

impl Interpreter for ScriptInterp {
    fn status(&self) -> RunStatus {
        RunStatus::Succeed
    }

    fn step(&mut self) -> StepEvent {
        if self.pos < self.events.len() {
            let e = self.events[self.pos];
            self.pos += 1;
            e
        } else {
            StepEvent::Done(RunStatus::Fatal)
        }
    }

    fn commit_account(&mut self, _c: Commitment) {
        self.account_commits += 1;
    }

    fn commit_blockhash(&mut self, _number: W256, _hash: W256) {
        self.blockhash_commits += 1;
    }

    fn out(&self) -> Vec<u8> {
        self.out_bytes.clone()
    }

    fn available_gas(&self) -> W256 {
        self.gas_left
    }

    fn accounts(&self) -> Vec<AccountChange> {
        self.changes
            .iter()
            .map(|(a, balance, nonce, code, slots)| AccountChange::Full {
                address: *a,
                balance: w(*balance),
                nonce: w(*nonce),
                code: code.clone(),
                changing_storage: slots
                    .iter()
                    .map(|(k, v)| StorageSlot { key: w(*k), value: w(*v) })
                    .collect(),
            })
            .collect()
    }

    fn logs(&self) -> Vec<LogRecord> {
        self.log_entries
            .iter()
            .map(|(a, topics, data)| LogRecord {
                address: *a,
                topics: topics.iter().map(|t| w(*t)).collect(),
                data: data.clone(),
            })
            .collect()
    }

    fn contexts(&self) -> Vec<CallContext> {
        self.calls
            .iter()
            .map(|(d, g, v, data)| CallContext {
                destination: *d,
                gas_limit: w(*g),
                value: w(*v),
                data: data.clone(),
            })
            .collect()
    }
}

fn simple_env() -> ScenarioEnv {
    ScenarioEnv {
        coinbase: addr(99),
        difficulty: w(0),
        gas_limit: w(1_000_000),
        number: w(1),
        timestamp: w(10),
    }
}

fn simple_exec(caller: Address, target: Address, value: W256) -> TransactionExec {
    TransactionExec {
        address: target,
        caller,
        code: Vec::new(),
        data: Vec::new(),
        gas: w(1_000_000),
        gas_price: w(1),
        origin: caller,
        value,
    }
}

#[test]
fn canonical_table_holds_exactly_three_blocks() {
    let h1 = canonical_block_hash(w(1)).unwrap();
    assert_eq!(h1, W256 { limb0: 1, limb1: 0xb10c, limb2: 0xb10c, limb3: 0xb10c });
    let h2 = canonical_block_hash(w(2)).unwrap();
    assert_eq!(h2, W256 { limb0: 2, limb1: 0xb10c, limb2: 0xb10c, limb3: 0xb10c });
    let h3 = canonical_block_hash(w(3)).unwrap();
    assert_eq!(h3, W256 { limb0: 3, limb1: 0xb10c, limb2: 0xb10c, limb3: 0xb10c });
    assert_eq!(canonical_block_hash(w(0)), None);
    assert_eq!(canonical_block_hash(w(4)), None);
}

#[test]
fn requirements_resolve_against_the_store() {
    let mut b = MyBackend::new();
    let a = addr(1);
    b.deposit(a, w(50));
    assert_eq!(b.set_code(a, vec![0x60]), Ok(()));
    assert_eq!(b.set_storage(a, w(7), w(8)), Ok(()));

    match resolve_requirement(&b, Requirement::Account(a)).unwrap() {
        Commitment::Full { address, balance, nonce, code } => {
            assert_eq!(address, a);
            assert_eq!(balance, w(50));
            assert_eq!(nonce, W256::zero());
            assert_eq!(code, vec![0x60]);
        }
        other => panic!("unexpected commitment: {:?}", other),
    }
    match resolve_requirement(&b, Requirement::Account(addr(2))).unwrap() {
        Commitment::Nonexist(address) => assert_eq!(address, addr(2)),
        other => panic!("unexpected commitment: {:?}", other),
    }
    match resolve_requirement(&b, Requirement::AccountStorage(a, w(7))).unwrap() {
        Commitment::Storage { address, key, value } => {
            assert_eq!((address, key, value), (a, w(7), w(8)));
        }
        other => panic!("unexpected commitment: {:?}", other),
    }
    match resolve_requirement(&b, Requirement::AccountCode(a)).unwrap() {
        Commitment::Code { address, code } => {
            assert_eq!(address, a);
            assert_eq!(code, vec![0x60]);
        }
        other => panic!("unexpected commitment: {:?}", other),
    }
    match resolve_requirement(&b, Requirement::BlockHash(w(9))) {
        Err(f) => assert_eq!(f, Fault::UnknownBlockNumber),
        Ok(other) => panic!("unexpected commitment: {:?}", other),
    }
}

#[test]
fn loop_resolves_requirements_then_stops() {
    let b = MyBackend::new();
    let mut interp = script(vec![
        StepEvent::Require(Requirement::Account(addr(1))),
        StepEvent::Require(Requirement::BlockHash(w(2))),
        StepEvent::Done(RunStatus::Succeed),
    ]);
    let r = run_resolution_loop(&b, &mut interp, 100);
    assert_eq!(r, Ok(RunStatus::Succeed));
    assert_eq!(interp.account_commits, 1);
    assert_eq!(interp.blockhash_commits, 1);
}

#[test]
fn loop_stops_on_an_unmapped_block_number() {
    let b = MyBackend::new();
    let mut interp = script(vec![StepEvent::Require(Requirement::BlockHash(w(1000)))]);
    let r = run_resolution_loop(&b, &mut interp, 100);
    assert_eq!(r, Err(Fault::UnknownBlockNumber));
}

#[test]
fn loop_reports_a_stuck_interpreter() {
    let b = MyBackend::new();
    let mut interp = script(vec![StepEvent::Require(Requirement::Account(addr(1)))]);
    let r = run_resolution_loop(&b, &mut interp, 0);
    assert_eq!(r, Err(Fault::InterpreterFatal));
}

#[test]
fn pre_state_reads_back_exactly() {
    let pre = vec![PreAccount {
        address: addr(1),
        balance: w(100),
        code: vec![0xfe, 0xff],
        storage: vec![StorageSlot { key: w(1), value: w(2) }],
    }];
    let b = build_pre_state(&pre, env_block(&simple_env()));
    assert_eq!(b.balance(addr(1)), w(100));
    assert_eq!(b.nonce(addr(1)), W256::zero());
    assert_eq!(b.code(addr(1)), vec![0xfe, 0xff]);
    assert_eq!(b.storage(addr(1), w(1)), w(2));
    assert_eq!(b.original_storage(addr(1), w(1)), w(2));
    assert!(!b.account_exists(addr(2)));
    assert_eq!(b.block_coinbase(), addr(99));
    assert_eq!(b.block_gas_limit(), w(1_000_000));
}

#[test]
fn overdrawing_transaction_fails_clean() {
    let scenario = Scenario {
        env: simple_env(),
        pre: vec![PreAccount {
            address: addr(1),
            balance: w(100),
            code: Vec::new(),
            storage: Vec::new(),
        }],
        transaction: simple_exec(addr(1), addr(2), w(150)),
        expect: None,
    };
    let mut interp = script(vec![]);
    let outcome = run_scenario(&scenario, &mut interp, 100).unwrap();
    assert_eq!(outcome.fault, Some(Fault::InsufficientFunds));
    assert_eq!(outcome.status, RunStatus::Exception);
    assert_eq!(outcome.backend.balance(addr(1)), w(100));
    assert!(matches!(outcome.verdict, Verdict::Pass));
    // The interpreter was never stepped.
    assert_eq!(interp.pos, 0);
}

#[test]
fn failed_run_commits_nothing() {
    let scenario = Scenario {
        env: simple_env(),
        pre: vec![PreAccount {
            address: addr(1),
            balance: w(100),
            code: Vec::new(),
            storage: Vec::new(),
        }],
        transaction: simple_exec(addr(1), addr(2), w(30)),
        expect: None,
    };
    let mut interp = script(vec![StepEvent::Done(RunStatus::Exception)]);
    let outcome = run_scenario(&scenario, &mut interp, 100).unwrap();
    assert_eq!(outcome.status, RunStatus::Exception);
    assert_eq!(outcome.fault, None);
    // The value transfer was reverted together with the run.
    assert_eq!(outcome.backend.balance(addr(1)), w(100));
    assert!(!outcome.backend.account_exists(addr(2)));
}

#[test]
fn successful_run_applies_changes_and_logs() {
    let scenario = Scenario {
        env: simple_env(),
        pre: vec![PreAccount {
            address: addr(1),
            balance: w(100),
            code: Vec::new(),
            storage: Vec::new(),
        }],
        transaction: simple_exec(addr(1), addr(2), w(30)),
        expect: None,
    };
    let mut interp = script(vec![
        StepEvent::Require(Requirement::Account(addr(1))),
        StepEvent::Done(RunStatus::Succeed),
    ]);
    interp.changes = vec![(addr(3), 55, 2, vec![1, 2], vec![(5, 9)])];
    interp.log_entries = vec![(addr(3), vec![4], vec![7, 8])];
    let outcome = run_scenario(&scenario, &mut interp, 100).unwrap();
    assert_eq!(outcome.status, RunStatus::Succeed);
    let b = &outcome.backend;
    assert_eq!(b.balance(addr(1)), w(70));
    assert_eq!(b.balance(addr(2)), w(30));
    assert_eq!(b.balance(addr(3)), w(55));
    assert_eq!(b.nonce(addr(3)), w(2));
    assert_eq!(b.code(addr(3)), vec![1, 2]);
    assert_eq!(b.storage(addr(3), w(5)), w(9));
    let expected_logs = vec![LogRecord {
        address: addr(3),
        topics: vec![w(4)],
        data: vec![7, 8],
    }];
    assert_eq!(logs_digest(&b.state.logs), logs_digest(&expected_logs));
}

#[test]
fn matching_expectation_passes() {
    let scenario = Scenario {
        env: simple_env(),
        pre: vec![PreAccount {
            address: addr(1),
            balance: w(100),
            code: Vec::new(),
            storage: Vec::new(),
        }],
        transaction: simple_exec(addr(1), addr(2), w(0)),
        expect: Some(Expectation {
            out: Some(vec![0xaa]),
            gas: Some(w(500)),
            post: vec![PostAccount {
                address: addr(1),
                balance: w(100),
                nonce: W256::zero(),
                code: Vec::new(),
                storage: Vec::new(),
            }],
            logs_hash: Some(logs_digest(&Vec::new())),
            callcreates: Some(Vec::new()),
        }),
    };
    let mut interp = script(vec![StepEvent::Done(RunStatus::Succeed)]);
    interp.out_bytes = vec![0xaa];
    interp.gas_left = w(500);
    let outcome = run_scenario(&scenario, &mut interp, 100).unwrap();
    assert!(matches!(outcome.verdict, Verdict::Pass));
}

#[test]
fn logs_hash_mismatch_is_never_a_silent_pass() {
    // Everything matches except the expected log digest.
    let scenario = Scenario {
        env: simple_env(),
        pre: vec![PreAccount {
            address: addr(1),
            balance: w(100),
            code: Vec::new(),
            storage: Vec::new(),
        }],
        transaction: simple_exec(addr(1), addr(2), w(0)),
        expect: Some(Expectation {
            out: Some(vec![0xaa]),
            gas: Some(w(500)),
            post: vec![PostAccount {
                address: addr(1),
                balance: w(100),
                nonce: W256::zero(),
                code: Vec::new(),
                storage: Vec::new(),
            }],
            logs_hash: Some(logs_digest(&Vec::new()).wrapping_add(1)),
            callcreates: Some(Vec::new()),
        }),
    };
    let mut interp = script(vec![StepEvent::Done(RunStatus::Succeed)]);
    interp.out_bytes = vec![0xaa];
    interp.gas_left = w(500);
    let outcome = run_scenario(&scenario, &mut interp, 100).unwrap();
    match outcome.verdict {
        Verdict::AssertionMismatch(diff) => {
            assert!(diff.contains(&Mismatch::LogsHash));
            assert!(!diff.contains(&Mismatch::Out));
            assert!(!diff.contains(&Mismatch::Gas));
        }
        Verdict::Pass => panic!("a wrong log digest must not pass"),
    }
}

#[test]
fn expected_failure_scenarios_invert_success() {
    // No expected output: a successful run is itself a mismatch.
    let scenario = Scenario {
        env: simple_env(),
        pre: vec![PreAccount {
            address: addr(1),
            balance: w(100),
            code: Vec::new(),
            storage: Vec::new(),
        }],
        transaction: simple_exec(addr(1), addr(2), w(0)),
        expect: Some(Expectation {
            out: None,
            gas: None,
            post: Vec::new(),
            logs_hash: None,
            callcreates: None,
        }),
    };
    let mut interp = script(vec![StepEvent::Done(RunStatus::Succeed)]);
    let outcome = run_scenario(&scenario, &mut interp, 100).unwrap();
    match outcome.verdict {
        Verdict::AssertionMismatch(diff) => assert!(diff.contains(&Mismatch::Status)),
        Verdict::Pass => panic!("an unexpectedly successful run must not pass"),
    }

    let mut failing = script(vec![StepEvent::Done(RunStatus::Exception)]);
    let scenario2 = Scenario {
        env: simple_env(),
        pre: vec![PreAccount {
            address: addr(1),
            balance: w(100),
            code: Vec::new(),
            storage: Vec::new(),
        }],
        transaction: simple_exec(addr(1), addr(2), w(0)),
        expect: Some(Expectation {
            out: None,
            gas: None,
            post: Vec::new(),
            logs_hash: None,
            callcreates: None,
        }),
    };
    let outcome2 = run_scenario(&scenario2, &mut failing, 100).unwrap();
    assert!(matches!(outcome2.verdict, Verdict::Pass));
}

#[test]
fn call_list_is_checked_by_position() {
    let scenario = Scenario {
        env: simple_env(),
        pre: vec![PreAccount {
            address: addr(1),
            balance: w(100),
            code: Vec::new(),
            storage: Vec::new(),
        }],
        transaction: simple_exec(addr(1), addr(2), w(0)),
        expect: Some(Expectation {
            out: Some(Vec::new()),
            gas: None,
            post: Vec::new(),
            logs_hash: None,
            callcreates: Some(vec![CallContext {
                destination: addr(7),
                gas_limit: w(10),
                value: w(0),
                data: vec![1],
            }]),
        }),
    };
    let mut interp = script(vec![StepEvent::Done(RunStatus::Succeed)]);
    interp.calls = vec![(addr(7), 10, 0, vec![1])];
    let outcome = run_scenario(&scenario, &mut interp, 100).unwrap();
    assert!(matches!(outcome.verdict, Verdict::Pass));

    let mut wrong = script(vec![StepEvent::Done(RunStatus::Succeed)]);
    wrong.calls = vec![(addr(7), 11, 0, vec![1])];
    let scenario2 = Scenario {
        env: simple_env(),
        pre: vec![],
        transaction: simple_exec(addr(1), addr(2), w(0)),
        expect: Some(Expectation {
            out: Some(Vec::new()),
            gas: None,
            post: Vec::new(),
            logs_hash: None,
            callcreates: Some(vec![CallContext {
                destination: addr(7),
                gas_limit: w(10),
                value: w(0),
                data: vec![1],
            }]),
        }),
    };
    let outcome2 = run_scenario(&scenario2, &mut wrong, 100).unwrap();
    match outcome2.verdict {
        Verdict::AssertionMismatch(diff) => assert!(diff.contains(&Mismatch::Callcreates)),
        Verdict::Pass => panic!("a wrong call list must not pass"),
    }
}

#[test]
fn a_mismatch_does_not_abort_the_batch() {
    let bad = Scenario {
        env: simple_env(),
        pre: vec![],
        transaction: simple_exec(addr(1), addr(2), w(0)),
        expect: Some(Expectation {
            out: Some(Vec::new()),
            gas: None,
            post: Vec::new(),
            logs_hash: Some(logs_digest(&Vec::new()).wrapping_add(1)),
            callcreates: None,
        }),
    };
    let good = Scenario {
        env: simple_env(),
        pre: vec![],
        transaction: simple_exec(addr(1), addr(2), w(0)),
        expect: Some(Expectation {
            out: Some(Vec::new()),
            gas: None,
            post: Vec::new(),
            logs_hash: Some(logs_digest(&Vec::new())),
            callcreates: None,
        }),
    };
    let scenarios = vec![bad, good];
    let mut interps = vec![
        script(vec![StepEvent::Done(RunStatus::Succeed)]),
        script(vec![StepEvent::Done(RunStatus::Succeed)]),
    ];
    let results = run_batch(&scenarios, &mut interps, 100);
    assert_eq!(results.len(), 2);
    match &results[0] {
        Ok(o) => assert!(matches!(o.verdict, Verdict::AssertionMismatch(_))),
        Err(e) => panic!("first scenario must not abort: {:?}", e),
    }
    match &results[1] {
        Ok(o) => assert!(matches!(o.verdict, Verdict::Pass)),
        Err(e) => panic!("second scenario must still run: {:?}", e),
    }
}

#[test]
fn overdraw_in_a_batch_completes_cleanly() {
    // An overdrawing transaction never reaches the interpreter and
    // never fails fatally: its batch entry is a completed outcome.
    let overdraw = Scenario {
        env: simple_env(),
        pre: vec![PreAccount {
            address: addr(1),
            balance: w(10),
            code: Vec::new(),
            storage: Vec::new(),
        }],
        transaction: simple_exec(addr(1), addr(2), w(11)),
        expect: None,
    };
    let scenarios = vec![overdraw];
    let mut interps = vec![script(vec![])];
    let results = run_batch(&scenarios, &mut interps, 100);
    assert_eq!(results.len(), 1);
    match &results[0] {
        Ok(o) => {
            assert_eq!(o.fault, Some(Fault::InsufficientFunds));
            assert_eq!(o.status, RunStatus::Exception);
            assert_eq!(o.backend.balance(addr(1)), w(10));
        }
        Err(e) => panic!("an overdraw must complete, not abort: {:?}", e),
    }
}

#[test]
fn post_state_mismatches_are_identified() {
    let scenario = Scenario {
        env: simple_env(),
        pre: vec![PreAccount {
            address: addr(1),
            balance: w(100),
            code: Vec::new(),
            storage: Vec::new(),
        }],
        transaction: simple_exec(addr(1), addr(2), w(0)),
        expect: Some(Expectation {
            out: Some(Vec::new()),
            gas: None,
            post: vec![PostAccount {
                address: addr(1),
                balance: w(90),
                nonce: w(1),
                code: vec![1],
                storage: vec![StorageSlot { key: w(4), value: w(5) }],
            }],
            logs_hash: None,
            callcreates: None,
        }),
    };
    let mut interp = script(vec![StepEvent::Done(RunStatus::Succeed)]);
    let outcome = run_scenario(&scenario, &mut interp, 100).unwrap();
    match outcome.verdict {
        Verdict::AssertionMismatch(diff) => {
            assert!(diff.contains(&Mismatch::Balance(addr(1))));
            assert!(diff.contains(&Mismatch::Nonce(addr(1))));
            assert!(diff.contains(&Mismatch::Code(addr(1))));
            assert!(diff.contains(&Mismatch::Storage(addr(1), w(4))));
        }
        Verdict::Pass => panic!("a wrong post-state must not pass"),
    }
}
