use cross_contract_calls::account::AccountId;
use cross_contract_calls::budget::ResourceBudget;
use cross_contract_calls::promise::{
    Combinator, CombinatorMode, Method, Promise, PromiseOutput, ValidationError,
};
use cross_contract_calls::router::{AuroraRouter, PullError};

fn account(name: &str) -> AccountId {
    AccountId::new(name.as_bytes().to_vec())
}

fn promise(compute_cost: u128, value_cost: u128, combinator: Option<Combinator>) -> Promise {
    Promise {
        target: account("target.near"),
        method: Method::new(b"do_it".to_vec()).unwrap(),
        payload: vec![1, 2, 3],
        compute_cost,
        value_cost,
        combinator,
    }
}

fn stamped(sender: &str, promises: &[Promise]) -> Vec<PromiseOutput> {
    promises
        .iter()
        .map(|p| PromiseOutput { sender: account(sender), promise: p.clone() })
        .collect()
}

fn and_ref(ref_index: u8) -> Option<Combinator> {
    Some(Combinator { mode: CombinatorMode::And, ref_index })
}

fn then_ref(ref_index: u8) -> Option<Combinator> {
    Some(Combinator { mode: CombinatorMode::Then, ref_index })
}

#[test]
fn new_router_is_empty() {
    let router = AuroraRouter::new(account("async.near"));
    assert_eq!(router.last_used_index(), 0);
    assert!(!router.holds(0));
}

#[test]
fn schedule_pull_and_pull_again() {
    let owner = account("async.near");
    let mut router = AuroraRouter::new(owner.clone());
    let batch = vec![promise(10, 0, None), promise(5, 0, None)];
    let index = router.schedule(&account("alice"), batch.clone());
    assert_eq!(index, Ok(0));
    assert!(router.holds(0));

    let pulled = router.pull(&owner, vec![0], ResourceBudget::new(20, 0));
    assert_eq!(pulled, Ok(vec![Some(stamped("alice", &batch))]));
    assert!(!router.holds(0));

    let again = router.pull(&owner, vec![0], ResourceBudget::new(u128::MAX, u128::MAX));
    assert_eq!(again, Ok(vec![None]));
}

#[test]
fn exhausted_pull_leaves_the_batch() {
    let owner = account("async.near");
    let mut router = AuroraRouter::new(owner.clone());
    let batch = vec![promise(100, 0, None)];
    let index = router.schedule(&account("alice"), batch.clone()).unwrap();

    let short = router.pull(&owner, vec![index], ResourceBudget::new(50, 0));
    assert_eq!(short, Err(PullError::ResourceExhausted));
    assert!(router.holds(index));

    let enough = router.pull(&owner, vec![index], ResourceBudget::new(100, 0));
    assert_eq!(enough, Ok(vec![Some(stamped("alice", &batch))]));
}

#[test]
fn indexes_grow_and_are_never_given_twice() {
    let owner = account("async.near");
    let mut router = AuroraRouter::new(owner.clone());
    assert_eq!(router.schedule(&account("a"), vec![promise(1, 0, None)]), Ok(0));
    assert_eq!(router.schedule(&account("b"), vec![promise(1, 0, None)]), Ok(1));
    // A refused batch takes no index.
    assert_eq!(router.schedule(&account("c"), vec![]), Err(ValidationError::EmptyBatch));
    assert_eq!(router.last_used_index(), 2);
    // Nor does a pull give one back.
    let pulled = router.pull(&owner, vec![0, 1], ResourceBudget::new(2, 0)).unwrap();
    assert_eq!(pulled.len(), 2);
    assert_eq!(router.schedule(&account("d"), vec![promise(1, 0, None)]), Ok(2));
    assert_eq!(router.last_used_index(), 3);
    assert!(!router.holds(0));
    assert!(!router.holds(1));
    assert!(router.holds(2));
}

#[test]
fn pull_is_all_or_nothing() {
    let owner = account("async.near");
    let mut router = AuroraRouter::new(owner.clone());
    let first = vec![promise(30, 1, None)];
    let second = vec![promise(30, 2, None), promise(1, 0, then_ref(0))];
    router.schedule(&account("a"), first.clone()).unwrap();
    router.schedule(&account("b"), second.clone()).unwrap();

    // 61 compute are needed: 60 do not do, though they cover either batch alone.
    let short = router.pull(&owner, vec![0, 1], ResourceBudget::new(60, 3));
    assert_eq!(short, Err(PullError::ResourceExhausted));
    assert!(router.holds(0));
    assert!(router.holds(1));

    // Enough compute, too little value.
    let short = router.pull(&owner, vec![0, 1], ResourceBudget::new(61, 2));
    assert_eq!(short, Err(PullError::ResourceExhausted));
    assert!(router.holds(0));
    assert!(router.holds(1));

    let exact = router.pull(&owner, vec![1, 0], ResourceBudget::new(61, 3));
    assert_eq!(exact, Ok(vec![Some(stamped("b", &second)), Some(stamped("a", &first))]));
    assert!(!router.holds(0));
    assert!(!router.holds(1));
}

#[test]
fn missing_indexes_cost_nothing_and_yield_none() {
    let owner = account("async.near");
    let mut router = AuroraRouter::new(owner.clone());
    let batch = vec![promise(7, 7, None)];
    router.schedule(&account("a"), batch.clone()).unwrap();
    let pulled = router.pull(&owner, vec![5, 0, 9], ResourceBudget::new(7, 7));
    assert_eq!(pulled, Ok(vec![None, Some(stamped("a", &batch)), None]));
}

#[test]
fn repeated_index_in_one_pull_is_found_once() {
    let owner = account("async.near");
    let mut router = AuroraRouter::new(owner.clone());
    let batch = vec![promise(7, 0, None)];
    router.schedule(&account("a"), batch.clone()).unwrap();
    // The batch is counted once: a budget of 7 covers the pull.
    let pulled = router.pull(&owner, vec![0, 0], ResourceBudget::new(7, 0));
    assert_eq!(pulled, Ok(vec![Some(stamped("a", &batch)), None]));
}

#[test]
fn empty_pull_succeeds_with_no_budget() {
    let owner = account("async.near");
    let mut router = AuroraRouter::new(owner.clone());
    assert_eq!(router.pull(&owner, vec![], ResourceBudget::new(0, 0)), Ok(vec![]));
}

#[test]
fn costs_beyond_128_bits_exhaust_any_budget() {
    let owner = account("async.near");
    let mut router = AuroraRouter::new(owner.clone());
    router
        .schedule(&account("a"), vec![promise(u128::MAX, 0, None), promise(1, 0, None)])
        .unwrap();
    let pulled = router.pull(&owner, vec![0], ResourceBudget::new(u128::MAX, u128::MAX));
    assert_eq!(pulled, Err(PullError::ResourceExhausted));
    assert!(router.holds(0));
}

#[test]
fn only_the_owner_pulls() {
    let owner = account("async.near");
    let mut router = AuroraRouter::new(owner.clone());
    router.schedule(&account("a"), vec![promise(1, 0, None)]).unwrap();
    let pulled = router.pull(&account("mallory"), vec![0], ResourceBudget::new(1, 0));
    assert_eq!(pulled, Err(PullError::Unauthorized));
    assert!(router.holds(0));
    // A name that only begins like the owner's is another account.
    let pulled = router.pull(&account("async.nea"), vec![0], ResourceBudget::new(1, 0));
    assert_eq!(pulled, Err(PullError::Unauthorized));
    assert!(router.pull(&owner, vec![0], ResourceBudget::new(1, 0)).is_ok());
}

#[test]
fn sender_is_the_caller_the_router_was_told_of() {
    let owner = account("async.near");
    let mut router = AuroraRouter::new(owner.clone());
    router.schedule(&account("alice"), vec![promise(1, 0, None), promise(1, 0, None)]).unwrap();
    let pulled = router.pull(&owner, vec![0], ResourceBudget::new(2, 0)).unwrap();
    let batch = pulled[0].as_ref().unwrap();
    assert_eq!(batch.len(), 2);
    assert_eq!(batch[0].sender, account("alice"));
    assert_eq!(batch[1].sender, account("alice"));
}

#[test]
fn self_reference_is_refused() {
    let mut router = AuroraRouter::new(account("async.near"));
    let batch = vec![promise(1, 0, None), promise(1, 0, then_ref(1))];
    assert_eq!(router.schedule(&account("a"), batch), Err(ValidationError::BadReference));
    assert_eq!(router.last_used_index(), 0);
    assert!(!router.holds(0));
}

#[test]
fn forward_reference_is_refused() {
    let mut router = AuroraRouter::new(account("async.near"));
    let batch = vec![promise(1, 0, and_ref(1)), promise(1, 0, None)];
    assert_eq!(router.schedule(&account("a"), batch), Err(ValidationError::BadReference));
    assert_eq!(router.last_used_index(), 0);
    assert!(!router.holds(0));
}

#[test]
fn reference_to_no_position_is_refused() {
    let mut router = AuroraRouter::new(account("async.near"));
    let batch = vec![promise(1, 0, None), promise(1, 0, then_ref(200))];
    assert_eq!(router.schedule(&account("a"), batch), Err(ValidationError::BadReference));
    // The first promise of a batch has nothing to refer to.
    let batch = vec![promise(1, 0, and_ref(0))];
    assert_eq!(router.schedule(&account("a"), batch), Err(ValidationError::BadReference));
    assert_eq!(router.last_used_index(), 0);
    assert!(!router.holds(0));
}

#[test]
fn backward_references_are_accepted() {
    let mut router = AuroraRouter::new(account("async.near"));
    let batch = vec![
        promise(1, 0, None),
        promise(1, 0, then_ref(0)),
        promise(1, 0, and_ref(0)),
        promise(1, 0, then_ref(2)),
    ];
    assert_eq!(router.schedule(&account("a"), batch), Ok(0));
}

#[test]
fn empty_batch_is_refused() {
    let mut router = AuroraRouter::new(account("async.near"));
    assert_eq!(router.schedule(&account("a"), vec![]), Err(ValidationError::EmptyBatch));
    assert_eq!(router.last_used_index(), 0);
}
