use cross_contract_calls::account::AccountId;
use cross_contract_calls::budget::ResourceBudget;
use cross_contract_calls::codec::{encode_pull_result, encode_schedule_call, parse_pull_result, parse_schedule_call};
use cross_contract_calls::wire::{encode_promise_indexes, encode_pull_call, parse_pull_call};
use cross_contract_calls::coordinator::{
    AsyncAurora, Attachment, CoordinatorError, Phase, PlannedCall, PullStep, SubmitStep,
    EXECUTE_GAS, ON_SCHEDULE_GAS, PULL_AND_EXECUTE_GAS, PULL_GAS, TGAS,
};
use cross_contract_calls::promise::{Combinator, CombinatorMode, Method, Promise, PromiseOutput};
use cross_contract_calls::resolver::ChainLink;
use cross_contract_calls::router::{AuroraRouter, PullError};

fn named(name: &str) -> AccountId {
    AccountId::new(name.as_bytes().to_vec())
}

fn pulled_record(
    sender: &str,
    method: &str,
    payload: Vec<u8>,
    compute_cost: u128,
    value_cost: u128,
    combinator: Option<Combinator>,
) -> PromiseOutput {
    PromiseOutput {
        sender: named(sender),
        promise: Promise {
            target: named("target.near"),
            method: Method::new(method.as_bytes().to_vec()).unwrap(),
            payload,
            compute_cost,
            value_cost,
            combinator,
        },
    }
}

fn awaiting_execution() -> AsyncAurora {
    let mut coordinator = AsyncAurora::new();
    coordinator
        .pull_and_execute(
            named("aurora"),
            vec![0],
            ResourceBudget::new(0, 0),
            PULL_AND_EXECUTE_GAS,
            0,
        )
        .unwrap();
    coordinator
}

#[test]
fn overheads_add_up() {
    assert_eq!(TGAS, 1_000_000_000_000);
    assert_eq!(EXECUTE_GAS, 3_000_000_000_000);
    assert_eq!(PULL_GAS, 3_000_000_000_000);
    assert_eq!(PULL_AND_EXECUTE_GAS, 9_000_000_000_000);
    assert_eq!(ON_SCHEDULE_GAS, 12_000_000_000_000);
}

#[test]
fn a_run_goes_through_every_phase() {
    let mut coordinator = AsyncAurora::new();
    assert_eq!(coordinator.phase(), Phase::Idle);
    let total = ResourceBudget::new(40, 7);

    let submit = coordinator.schedule_and_execute(named("aurora"), vec![9, 9], 500, total);
    assert_eq!(
        submit,
        Ok(SubmitStep {
            engine: named("aurora"),
            payload: vec![9, 9],
            submit: Attachment { gas: 500, balance: 0 },
            total,
            callback: Attachment { gas: 40 + ON_SCHEDULE_GAS, balance: 7 },
        })
    );
    assert_eq!(coordinator.phase(), Phase::AwaitingEngineResult);

    let engine_result = vec![2, 0, 0, 0, 4, 0, 0, 0, 0, 0, 0, 0, 5, 0, 0, 0, 0, 0, 0, 0];
    let pull = coordinator.on_schedule(
        named("aurora"),
        &engine_result,
        total,
        40 + PULL_AND_EXECUTE_GAS,
        7,
    );
    assert_eq!(
        pull,
        Ok(PullStep {
            engine: named("aurora"),
            indexes: vec![4, 5],
            total,
            pull: Attachment { gas: PULL_GAS, balance: 0 },
            callback: Attachment { gas: 40 + EXECUTE_GAS, balance: 7 },
        })
    );
    assert_eq!(coordinator.phase(), Phase::AwaitingExecution);

    let batch = vec![pulled_record("alice", "ping", vec![1, 2, 3], 40, 7, None)];
    let plan = coordinator.execute(&named("aurora"), Ok(vec![None, Some(batch)]));
    let mut payload = vec![0u8, 6];
    payload.extend_from_slice(b"aurora");
    payload.extend_from_slice(b"alice");
    payload.extend_from_slice(&[1, 2, 3]);
    assert_eq!(
        plan,
        Ok(vec![vec![PlannedCall {
            target: named("target.near"),
            method: Method::new(b"ping".to_vec()).unwrap(),
            payload,
            gas: 40,
            balance: 7,
            link: ChainLink::Independent,
        }]])
    );
    assert_eq!(coordinator.phase(), Phase::Done);
}

#[test]
fn router_and_coordinator_end_to_end() {
    let owner = named("async.near");
    let mut router = AuroraRouter::new(owner.clone());
    let promises = vec![
        Promise {
            target: named("one.near"),
            method: Method::new(b"first".to_vec()).unwrap(),
            payload: vec![0xaa],
            compute_cost: 10,
            value_cost: 0,
            combinator: None,
        },
        Promise {
            target: named("two.near"),
            method: Method::new(b"second".to_vec()).unwrap(),
            payload: vec![],
            compute_cost: 5,
            value_cost: 0,
            combinator: Some(Combinator { mode: CombinatorMode::Then, ref_index: 0 }),
        },
    ];
    let index = router.schedule(&named("bob"), promises).unwrap();
    assert_eq!(index, 0);

    let mut coordinator = AsyncAurora::new();
    let total = ResourceBudget::new(20, 0);
    let step = coordinator
        .pull_and_execute(named("aurora"), vec![index], total, 20 + PULL_AND_EXECUTE_GAS, 0)
        .unwrap();
    let pulled = router.pull(&owner, step.indexes, step.total);
    let plan = coordinator.execute(&step.engine, pulled).unwrap();
    assert_eq!(plan.len(), 1);
    assert_eq!(plan[0].len(), 2);
    assert_eq!(plan[0][0].target, named("one.near"));
    assert_eq!(plan[0][0].payload, b"\x00\x06aurorabob\xaa".to_vec());
    assert_eq!(plan[0][0].link, ChainLink::Independent);
    assert_eq!(plan[0][1].target, named("two.near"));
    assert_eq!(plan[0][1].method.as_bytes(), &b"second".to_vec());
    assert_eq!(plan[0][1].payload, b"\x00\x06aurorabob".to_vec());
    assert_eq!(plan[0][1].gas, 5);
    assert_eq!(plan[0][1].balance, 0);
    assert_eq!(plan[0][1].link, ChainLink::After(0));
    assert!(!router.holds(0));
}

#[test]
fn and_fan_out_pairs_both_calls_with_the_first() {
    let and0 = Some(Combinator { mode: CombinatorMode::And, ref_index: 0 });
    let batch = vec![
        pulled_record("s", "a", vec![], 1, 0, None),
        pulled_record("s", "b", vec![], 2, 0, and0),
        pulled_record("s", "c", vec![], 3, 0, and0),
    ];
    let mut coordinator = awaiting_execution();
    let plan = coordinator.execute(&named("aurora"), Ok(vec![Some(batch)])).unwrap();
    assert_eq!(plan.len(), 1);
    let links: Vec<ChainLink> = plan[0].iter().map(|call| call.link).collect();
    assert_eq!(
        links,
        vec![ChainLink::Independent, ChainLink::JoinedWith(0), ChainLink::JoinedWith(0)]
    );
    let gas: Vec<u128> = plan[0].iter().map(|call| call.gas).collect();
    assert_eq!(gas, vec![1, 2, 3]);
}

#[test]
fn batches_are_planned_in_the_order_pulled() {
    let first = vec![pulled_record("s", "a", vec![], 1, 0, None)];
    let second = vec![
        pulled_record("t", "b", vec![], 2, 0, None),
        pulled_record("t", "c", vec![], 3, 0, None),
    ];
    let mut coordinator = awaiting_execution();
    let plan = coordinator
        .execute(&named("aurora"), Ok(vec![None, Some(second), None, Some(first), None]))
        .unwrap();
    assert_eq!(plan.len(), 2);
    assert_eq!(plan[0].len(), 2);
    assert_eq!(plan[0][1].gas, 3);
    assert_eq!(plan[1].len(), 1);
    assert_eq!(plan[1][0].gas, 1);
}

#[test]
fn nothing_pulled_gives_an_empty_plan() {
    let mut coordinator = awaiting_execution();
    assert_eq!(coordinator.execute(&named("aurora"), Ok(vec![None, None])), Ok(vec![]));
    assert_eq!(coordinator.phase(), Phase::Done);
}

#[test]
fn long_engine_names_keep_the_low_byte_of_their_length() {
    let name = vec![b'x'; 258];
    let batch = vec![pulled_record("s", "a", vec![7], 1, 0, None)];
    let mut coordinator = awaiting_execution();
    let plan = coordinator.execute(&AccountId::new(name.clone()), Ok(vec![Some(batch)])).unwrap();
    let mut payload = vec![0u8, 2];
    payload.extend_from_slice(&name);
    payload.extend_from_slice(b"s");
    payload.push(7);
    assert_eq!(plan[0][0].payload, payload);
}

#[test]
fn refused_pull_fails_the_run() {
    let mut coordinator = awaiting_execution();
    let plan = coordinator.execute(&named("aurora"), Err(PullError::ResourceExhausted));
    assert_eq!(plan, Err(CoordinatorError::PullRefused(PullError::ResourceExhausted)));
    assert_eq!(coordinator.phase(), Phase::Failed);

    let mut coordinator = awaiting_execution();
    let plan = coordinator.execute(&named("aurora"), Err(PullError::Unauthorized));
    assert_eq!(plan, Err(CoordinatorError::PullRefused(PullError::Unauthorized)));
    assert_eq!(coordinator.phase(), Phase::Failed);
}

#[test]
fn pulled_batch_with_a_forward_reference_fails_the_run() {
    let then1 = Some(Combinator { mode: CombinatorMode::Then, ref_index: 1 });
    let good = vec![pulled_record("s", "a", vec![], 1, 0, None)];
    let bad = vec![
        pulled_record("s", "a", vec![], 1, 0, then1),
        pulled_record("s", "b", vec![], 1, 0, None),
    ];
    let mut coordinator = awaiting_execution();
    let plan = coordinator.execute(&named("aurora"), Ok(vec![Some(good), Some(bad)]));
    assert_eq!(plan, Err(CoordinatorError::BadReference));
    assert_eq!(coordinator.phase(), Phase::Failed);
}

#[test]
fn underfunded_pull_fails_the_run() {
    let total = ResourceBudget::new(100, 10);
    let mut coordinator = AsyncAurora::new();
    let step = coordinator.pull_and_execute(
        named("aurora"),
        vec![0],
        total,
        100 + PULL_AND_EXECUTE_GAS - 1,
        10,
    );
    assert_eq!(step, Err(CoordinatorError::ResourceExhausted));
    assert_eq!(coordinator.phase(), Phase::Failed);

    let mut coordinator = AsyncAurora::new();
    let step =
        coordinator.pull_and_execute(named("aurora"), vec![0], total, 100 + PULL_AND_EXECUTE_GAS, 9);
    assert_eq!(step, Err(CoordinatorError::ResourceExhausted));
    assert_eq!(coordinator.phase(), Phase::Failed);

    let mut coordinator = AsyncAurora::new();
    let step = coordinator.pull_and_execute(
        named("aurora"),
        vec![0],
        ResourceBudget::new(u128::MAX, 0),
        u128::MAX,
        0,
    );
    assert_eq!(step, Err(CoordinatorError::ResourceExhausted));

    let mut coordinator = AsyncAurora::new();
    let step = coordinator.pull_and_execute(
        named("aurora"),
        vec![3, 1],
        total,
        100 + PULL_AND_EXECUTE_GAS,
        10,
    );
    assert_eq!(
        step,
        Ok(PullStep {
            engine: named("aurora"),
            indexes: vec![3, 1],
            total,
            pull: Attachment { gas: PULL_GAS, balance: 0 },
            callback: Attachment { gas: 100 + EXECUTE_GAS, balance: 10 },
        })
    );
}

#[test]
fn budget_too_large_to_reserve_fails_at_once() {
    let mut coordinator = AsyncAurora::new();
    let step = coordinator.schedule_and_execute(
        named("aurora"),
        vec![],
        1,
        ResourceBudget::new(u128::MAX - ON_SCHEDULE_GAS + 1, 0),
    );
    assert_eq!(step, Err(CoordinatorError::ResourceExhausted));
    assert_eq!(coordinator.phase(), Phase::Failed);

    let mut coordinator = AsyncAurora::new();
    let step = coordinator.schedule_and_execute(
        named("aurora"),
        vec![],
        1,
        ResourceBudget::new(u128::MAX - ON_SCHEDULE_GAS, 0),
    );
    assert_eq!(step.unwrap().callback.gas, u128::MAX);
}

#[test]
fn malformed_engine_result_fails_the_run() {
    let mut coordinator = AsyncAurora::new();
    coordinator
        .schedule_and_execute(named("aurora"), vec![], 1, ResourceBudget::new(0, 0))
        .unwrap();
    let step = coordinator.on_schedule(
        named("aurora"),
        &vec![1, 0, 0, 0],
        ResourceBudget::new(0, 0),
        PULL_AND_EXECUTE_GAS,
        0,
    );
    assert_eq!(step, Err(CoordinatorError::MalformedIndexes));
    assert_eq!(coordinator.phase(), Phase::Failed);
}

#[test]
fn underfunded_on_schedule_fails_the_run() {
    let mut coordinator = AsyncAurora::new();
    coordinator
        .schedule_and_execute(named("aurora"), vec![], 1, ResourceBudget::new(5, 0))
        .unwrap();
    let step = coordinator.on_schedule(
        named("aurora"),
        &vec![0, 0, 0, 0],
        ResourceBudget::new(5, 0),
        PULL_AND_EXECUTE_GAS + 4,
        0,
    );
    assert_eq!(step, Err(CoordinatorError::ResourceExhausted));
    assert_eq!(coordinator.phase(), Phase::Failed);
}

#[test]
fn steps_out_of_turn_change_nothing() {
    let total = ResourceBudget::new(0, 0);
    let mut coordinator = AsyncAurora::new();
    assert_eq!(
        coordinator.on_schedule(named("aurora"), &vec![0, 0, 0, 0], total, PULL_AND_EXECUTE_GAS, 0),
        Err(CoordinatorError::WrongPhase)
    );
    assert_eq!(coordinator.execute(&named("aurora"), Ok(vec![])), Err(CoordinatorError::WrongPhase));
    assert_eq!(coordinator.phase(), Phase::Idle);

    coordinator.schedule_and_execute(named("aurora"), vec![], 1, total).unwrap();
    assert_eq!(
        coordinator.schedule_and_execute(named("aurora"), vec![], 1, total),
        Err(CoordinatorError::WrongPhase)
    );
    assert_eq!(
        coordinator.pull_and_execute(named("aurora"), vec![], total, PULL_AND_EXECUTE_GAS, 0),
        Err(CoordinatorError::WrongPhase)
    );
    assert_eq!(coordinator.phase(), Phase::AwaitingEngineResult);
}

#[test]
fn failed_and_done_are_never_left() {
    let total = ResourceBudget::new(0, 0);
    let mut failed = AsyncAurora::new();
    assert!(failed.pull_and_execute(named("aurora"), vec![], total, 0, 0).is_err());
    assert_eq!(failed.phase(), Phase::Failed);
    let mut done = awaiting_execution();
    done.execute(&named("aurora"), Ok(vec![])).unwrap();
    assert_eq!(done.phase(), Phase::Done);
    for coordinator in [&mut failed, &mut done] {
        let before = coordinator.phase();
        assert_eq!(
            coordinator.schedule_and_execute(named("aurora"), vec![], 1, total),
            Err(CoordinatorError::WrongPhase)
        );
        assert_eq!(
            coordinator.on_schedule(named("aurora"), &vec![0, 0, 0, 0], total, u128::MAX, 0),
            Err(CoordinatorError::WrongPhase)
        );
        assert_eq!(
            coordinator.pull_and_execute(named("aurora"), vec![], total, u128::MAX, 0),
            Err(CoordinatorError::WrongPhase)
        );
        assert_eq!(
            coordinator.execute(&named("aurora"), Ok(vec![])),
            Err(CoordinatorError::WrongPhase)
        );
        assert_eq!(coordinator.phase(), before);
    }
}

#[test]
fn a_run_through_bytes_at_every_hop() {
    let owner = named("async.near");
    let mut router = AuroraRouter::new(owner.clone());
    let total = ResourceBudget::new(15, 0);

    // The engine's side: a schedule arrives as bytes.
    let and0 = Some(Combinator { mode: CombinatorMode::And, ref_index: 0 });
    let asked = vec![
        pulled_record("", "first", vec![1], 10, 0, None).promise,
        pulled_record("", "second", vec![2], 5, 0, and0).promise,
    ];
    let input = encode_schedule_call(&asked).unwrap();
    let index = router.schedule(&named("carol"), parse_schedule_call(&input).unwrap()).unwrap();
    let engine_result = encode_promise_indexes(&vec![index]).unwrap();

    // The coordinator's side.
    let mut coordinator = AsyncAurora::new();
    coordinator.schedule_and_execute(named("aurora"), input, 1, total).unwrap();
    let step = coordinator
        .on_schedule(named("aurora"), &engine_result, total, 15 + PULL_AND_EXECUTE_GAS, 0)
        .unwrap();
    let pull_input = encode_pull_call(&step.indexes, step.total).unwrap();

    // The engine's side again: the pull arrives and its outcomes leave as bytes.
    let (indexes, declared) = parse_pull_call(&pull_input).unwrap();
    let outcomes = router.pull(&owner, indexes, declared).unwrap();
    let output = encode_pull_result(&outcomes).unwrap();

    let plan = coordinator.execute(&named("aurora"), Ok(parse_pull_result(&output).unwrap())).unwrap();
    assert_eq!(coordinator.phase(), Phase::Done);
    assert_eq!(plan.len(), 1);
    assert_eq!(plan[0].len(), 2);
    assert_eq!(plan[0][0].payload, b"\x00\x06auroracarol\x01".to_vec());
    assert_eq!(plan[0][0].link, ChainLink::Independent);
    assert_eq!(plan[0][1].payload, b"\x00\x06auroracarol\x02".to_vec());
    assert_eq!(plan[0][1].link, ChainLink::JoinedWith(0));
    assert_eq!(plan[0][1].gas, 5);
}
