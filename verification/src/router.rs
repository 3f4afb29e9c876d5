//! The router: batches of promises stored under indices that only grow, and
//! handed out once, to one account, against a declared budget.

use std::collections::HashMap;
use vstd::prelude::*;
use crate::account::AccountId;
use crate::budget::Demand;
use crate::budget::ResourceBudget;
use crate::promise::batch_demand;
use crate::promise::batch_valid;
use crate::promise::check_references;
use crate::promise::demand_upto;
use crate::promise::lemma_demand_grows;
use crate::promise::Promise;
use crate::promise::PromiseOutput;
use crate::promise::ValidationError;

verus! {

broadcast use vstd::std_specs::hash::group_hash_axioms;

/// Why a pull is refused. Either way the router is left as it was.
#[derive(Clone, Copy, Debug, PartialEq, Eq, Structural)]
pub enum PullError {
    /// The caller is not the account the router releases promises to.
    Unauthorized,
    /// The batches found need more than the declared budget.
    ResourceExhausted,
}

/// What a router holds.
pub struct RouterView {
    /// The one account that may pull.
    pub budget_owner: Seq<u8>,
    /// The batches not pulled yet, by index.
    pub store: Map<u64, Vec<PromiseOutput>>,
    /// The index the next batch gets.
    pub last_used_index: u64,
}

impl RouterView {
    /// Every stored batch sits under an index that was already given out.
    pub open spec fn wf(self) -> bool {
        forall|k: u64| #[trigger] self.store.contains_key(k) ==> k < self.last_used_index
    }
}

/// A call on a router, by what came of it.
pub enum RouterCall {
    /// A schedule that was accepted: `stored` went under `index`.
    Scheduled { index: u64, stored: Vec<PromiseOutput> },
    /// A pull that was granted for `indexes`.
    Pulled { indexes: Seq<u64> },
    /// A schedule or a pull that was refused.
    Refused,
}

/// What a call does to a router: an accepted schedule stores its batch
/// under the counter's value and moves the counter one up; a granted pull
/// takes the indices it asked for out of the store; a refused call does
/// nothing.
pub open spec fn router_step(before: RouterView, call: RouterCall, after: RouterView) -> bool {
    match call {
        RouterCall::Scheduled { index, stored } => {
            &&& index == before.last_used_index
            &&& index < u64::MAX
            &&& after.budget_owner == before.budget_owner
            &&& after.store == before.store.insert(index, stored)
            &&& after.last_used_index == index + 1
        },
        RouterCall::Pulled { indexes } => {
            &&& after.budget_owner == before.budget_owner
            &&& after.store == store_after_pull(before.store, indexes)
            &&& after.last_used_index == before.last_used_index
        },
        RouterCall::Refused => after == before,
    }
}

/// The stored form of `batch`: the same promises in the same order, each
/// stamped with `sender`.
pub open spec fn stamped(stored: Seq<PromiseOutput>, batch: Seq<Promise>, sender: Seq<u8>) -> bool {
    &&& stored.len() == batch.len()
    &&& forall|i: int|
        0 <= i < batch.len() ==> (#[trigger] stored[i]).promise == batch[i] && stored[i].sender@
            == sender
}

/// The error that an unacceptable batch is refused with.
pub open spec fn rejection(batch: Seq<Promise>) -> ValidationError {
    if batch.len() == 0 {
        ValidationError::EmptyBatch
    } else {
        ValidationError::BadReference
    }
}

/// The request at position `i` finds a batch: one is stored under that
/// index, and no earlier request of the same pull has taken it.
pub open spec fn found(store: Map<u64, Vec<PromiseOutput>>, indexes: Seq<u64>, i: int) -> bool {
    store.contains_key(indexes[i]) && !indexes.take(i).contains(indexes[i])
}

/// What the request at position `i` yields.
pub open spec fn pull_outcome(
    store: Map<u64, Vec<PromiseOutput>>,
    indexes: Seq<u64>,
    i: int,
) -> Option<Vec<PromiseOutput>> {
    if found(store, indexes, i) {
        Some(store[indexes[i]])
    } else {
        None
    }
}

/// What a pull yields: one outcome per request, in the order of the requests.
pub open spec fn pull_results(store: Map<u64, Vec<PromiseOutput>>, indexes: Seq<u64>) -> Seq<
    Option<Vec<PromiseOutput>>,
> {
    Seq::new(indexes.len(), |i: int| pull_outcome(store, indexes, i))
}

/// The store once every requested index has been taken out of it.
pub open spec fn store_after_pull(store: Map<u64, Vec<PromiseOutput>>, indexes: Seq<u64>) -> Map<
    u64,
    Vec<PromiseOutput>,
> {
    store.remove_keys(indexes.to_set())
}

/// What the batches found by the first `n` requests cost together.
pub open spec fn required_upto(
    store: Map<u64, Vec<PromiseOutput>>,
    indexes: Seq<u64>,
    n: nat,
) -> Demand
    decreases n,
{
    if n == 0 {
        Demand::zero()
    } else if found(store, indexes, n - 1) {
        required_upto(store, indexes, (n - 1) as nat).plus(batch_demand(store[indexes[n - 1]]@))
    } else {
        required_upto(store, indexes, (n - 1) as nat)
    }
}

/// What all the batches found by a pull cost together.
pub open spec fn required(store: Map<u64, Vec<PromiseOutput>>, indexes: Seq<u64>) -> Demand {
    required_upto(store, indexes, indexes.len())
}

/// What the batches among the first `n` outcomes of a pull cost together.
pub open spec fn outcomes_demand_upto(outcomes: Seq<Option<Vec<PromiseOutput>>>, n: nat) -> Demand
    decreases n,
{
    if n == 0 {
        Demand::zero()
    } else {
        match outcomes[n - 1] {
            Some(batch) => outcomes_demand_upto(outcomes, (n - 1) as nat).plus(
                batch_demand(batch@),
            ),
            None => outcomes_demand_upto(outcomes, (n - 1) as nat),
        }
    }
}

/// What all the batches that a pull has handed out cost together.
pub open spec fn outcomes_demand(outcomes: Seq<Option<Vec<PromiseOutput>>>) -> Demand {
    outcomes_demand_upto(outcomes, outcomes.len())
}

/// More requests never need less.
pub proof fn lemma_required_grows(
    store: Map<u64, Vec<PromiseOutput>>,
    indexes: Seq<u64>,
    n: nat,
    m: nat,
)
    requires
        n <= m,
    ensures
        required_upto(store, indexes, n).within(required_upto(store, indexes, m)),
    decreases m,
{
    if n < m {
        lemma_required_grows(store, indexes, n, (m - 1) as nat);
    }
}

/// Whether the request at position `i` repeats an earlier one.
fn occurs_before(indexes: &Vec<u64>, i: usize) -> (repeated: bool)
    requires
        i < indexes.len(),
    ensures
        repeated == indexes@.take(i as int).contains(indexes@[i as int]),
{
    let mut j: usize = 0;
    while j < i
        invariant
            j <= i,
            i < indexes.len(),
            forall|k: int| 0 <= k < j ==> indexes@[k] != indexes@[i as int],
        decreases i - j,
    {
        if indexes[j] == indexes[i] {
            assert(indexes@.take(i as int)[j as int] == indexes@[i as int]);
            return true;
        }
        j += 1;
    }
    assert forall|k: int| 0 <= k < indexes@.take(i as int).len() implies indexes@.take(i as int)[k]
        != indexes@[i as int] by {
        assert(indexes@.take(i as int)[k] == indexes@[k]);
    }
    false
}

/// Takes the cost of a whole batch from `budget`, or reports that the
/// budget is not sufficient for it.
fn charge(batch: &Vec<PromiseOutput>, budget: ResourceBudget) -> (left: Option<ResourceBudget>)
    ensures
        left.is_some() == budget.affords(batch_demand(batch@)),
        left.is_some() ==> left.unwrap().as_demand().plus(batch_demand(batch@))
            == budget.as_demand(),
{
    let mut left = budget;
    let mut i: usize = 0;
    while i < batch.len()
        invariant
            i <= batch.len(),
            left.as_demand().plus(demand_upto(batch@, i as nat)) == budget.as_demand(),
        decreases batch.len() - i,
    {
        match left.spend(batch[i].promise.compute_cost, batch[i].promise.value_cost) {
            Some(rest) => {
                left = rest;
            },
            None => {
                proof {
                    lemma_demand_grows(batch@, (i + 1) as nat, batch@.len());
                }
                return None;
            },
        }
        i += 1;
    }
    Some(left)
}

/// The router. Its view is what it holds.
pub struct AuroraRouter {
    async_aurora: AccountId,
    promises: HashMap<u64, Vec<PromiseOutput>>,
    last_used_index: u64,
}

impl View for AuroraRouter {
    type V = RouterView;

    closed spec fn view(&self) -> RouterView {
        RouterView {
            budget_owner: self.async_aurora@,
            store: self.promises@,
            last_used_index: self.last_used_index,
        }
    }
}

impl AuroraRouter {
    #[verifier::type_invariant]
    spec fn indexes_were_given_out(self) -> bool {
        forall|k: u64| #[trigger] self.promises@.contains_key(k) ==> k < self.last_used_index
    }

    /// An empty router that releases promises to `async_aurora` alone.
    pub fn new(async_aurora: AccountId) -> (router: AuroraRouter)
        ensures
            router@.budget_owner == async_aurora@,
            router@.store == Map::<u64, Vec<PromiseOutput>>::empty(),
            router@.last_used_index == 0,
            router@.wf(),
    {
        AuroraRouter { async_aurora, promises: HashMap::new(), last_used_index: 0 }
    }

    /// The index that the next accepted batch will get.
    pub fn last_used_index(&self) -> (index: u64)
        ensures
            index == self@.last_used_index,
    {
        self.last_used_index
    }

    /// Whether a batch is stored under `index`.
    pub fn holds(&self, index: u64) -> (stored: bool)
        ensures
            stored == self@.store.contains_key(index),
    {
        self.promises.contains_key(&index)
    }

    /// Stores `promises` as one batch on behalf of `caller` and returns the
    /// index it is stored under. A batch that is empty, or in which a
    /// combinator does not refer to a strictly earlier position, is refused
    /// and nothing changes.
    pub fn schedule(&mut self, caller: &AccountId, promises: Vec<Promise>) -> (scheduled: Result<
        u64,
        ValidationError,
    >)
        requires
            old(self)@.last_used_index < u64::MAX,
        ensures
            old(self)@.wf(),
            final(self)@.wf(),
            final(self)@.budget_owner == old(self)@.budget_owner,
            router_step(
                old(self)@,
                match scheduled {
                    Ok(index) => RouterCall::Scheduled { index, stored: final(self)@.store[index] },
                    Err(_) => RouterCall::Refused,
                },
                final(self)@,
            ),
            match scheduled {
                Ok(index) => {
                    &&& batch_valid(promises@)
                    &&& index == old(self)@.last_used_index
                    &&& final(self)@.last_used_index == index + 1
                    &&& !old(self)@.store.contains_key(index)
                    &&& final(self)@.store.contains_key(index)
                    &&& final(self)@.store == old(self)@.store.insert(
                        index,
                        final(self)@.store[index],
                    )
                    &&& stamped(final(self)@.store[index]@, promises@, caller@)
                },
                Err(e) => {
                    &&& !batch_valid(promises@)
                    &&& e == rejection(promises@)
                    &&& final(self)@ == old(self)@
                },
            },
    {
        proof {
            use_type_invariant(&*self);
        }
        if promises.len() == 0 {
            return Err(ValidationError::EmptyBatch);
        }
        if !check_references(&promises) {
            return Err(ValidationError::BadReference);
        }
        let batch = stamp(caller, promises);
        let index = self.last_used_index;
        let mut store: HashMap<u64, Vec<PromiseOutput>> = HashMap::new();
        std::mem::swap(&mut self.promises, &mut store);
        store.insert(index, batch);
        self.last_used_index = index + 1;
        std::mem::swap(&mut self.promises, &mut store);
        Ok(index)
    }

    /// Hands the batches under `indexes` over to `caller` and forgets them:
    /// one outcome per request, `None` where nothing is stored under the
    /// index or an earlier request of this pull took it. Refused as a whole,
    /// with nothing changed, where `caller` is not the owner or where the
    /// batches found need more than `total`.
    pub fn pull(&mut self, caller: &AccountId, indexes: Vec<u64>, total: ResourceBudget) -> (pulled:
        Result<Vec<Option<Vec<PromiseOutput>>>, PullError>)
        ensures
            old(self)@.wf(),
            final(self)@.wf(),
            final(self)@.budget_owner == old(self)@.budget_owner,
            router_step(
                old(self)@,
                match pulled {
                    Ok(_) => RouterCall::Pulled { indexes: indexes@ },
                    Err(_) => RouterCall::Refused,
                },
                final(self)@,
            ),
            match pulled {
                Ok(batches) => {
                    &&& caller@ == old(self)@.budget_owner
                    &&& total.affords(required(old(self)@.store, indexes@))
                    &&& batches@ == pull_results(old(self)@.store, indexes@)
                    &&& final(self)@.store == store_after_pull(old(self)@.store, indexes@)
                },
                Err(PullError::Unauthorized) => {
                    &&& caller@ != old(self)@.budget_owner
                    &&& final(self)@ == old(self)@
                },
                Err(PullError::ResourceExhausted) => {
                    &&& caller@ == old(self)@.budget_owner
                    &&& !total.affords(required(old(self)@.store, indexes@))
                    &&& final(self)@ == old(self)@
                },
            },
    {
        proof {
            use_type_invariant(&*self);
        }
        if !caller.same_as(&self.async_aurora) {
            return Err(PullError::Unauthorized);
        }
        let ghost store = self.promises@;
        let mut left = total;
        let mut i: usize = 0;
        while i < indexes.len()
            invariant
                i <= indexes.len(),
                self.async_aurora == old(self).async_aurora,
                self.last_used_index == old(self).last_used_index,
                store == old(self).promises@,
                old(self)@.wf(),
                caller@ == self.async_aurora@,
                self.promises@ == store,
                left.as_demand().plus(required_upto(store, indexes@, i as nat))
                    == total.as_demand(),
            decreases indexes.len() - i,
        {
            if !occurs_before(&indexes, i) {
                match self.promises.get(&indexes[i]) {
                    Some(batch) => {
                        match charge(batch, left) {
                            Some(rest) => {
                                left = rest;
                            },
                            None => {
                                proof {
                                    lemma_required_grows(
                                        store,
                                        indexes@,
                                        (i + 1) as nat,
                                        indexes@.len(),
                                    );
                                }
                                return Err(PullError::ResourceExhausted);
                            },
                        }
                    },
                    None => {},
                }
            }
            i += 1;
        }
        let mut batches: Vec<Option<Vec<PromiseOutput>>> = Vec::new();
        let mut left_over: HashMap<u64, Vec<PromiseOutput>> = HashMap::new();
        std::mem::swap(&mut self.promises, &mut left_over);
        let mut i: usize = 0;
        proof {
            assert(indexes@.take(0).to_set() =~= Set::<u64>::empty());
            assert(store.remove_keys(Set::<u64>::empty()) =~= store);
        }
        while i < indexes.len()
            invariant
                i <= indexes.len(),
                self.async_aurora == old(self).async_aurora,
                self.last_used_index == old(self).last_used_index,
                store == old(self).promises@,
                old(self)@.wf(),
                caller@ == self.async_aurora@,
                self.promises@ == Map::<u64, Vec<PromiseOutput>>::empty(),
                left_over@ == store.remove_keys(indexes@.take(i as int).to_set()),
                batches@.len() == i,
                forall|j: int| 0 <= j < i ==> batches@[j] == pull_outcome(store, indexes@, j),
            decreases indexes.len() - i,
        {
            let ghost before = left_over@;
            let taken = left_over.remove(&indexes[i]);
            proof {
                let k = indexes@[i as int];
                indexes@.take(i as int).lemma_push_to_set_commute(k);
                assert(indexes@.take(i + 1) == indexes@.take(i as int).push(k));
                assert(indexes@.take(i as int).to_set().contains(k) == indexes@.take(
                    i as int,
                ).contains(k));
                assert(before.remove(k) =~= store.remove_keys(indexes@.take(i + 1).to_set()));
            }
            batches.push(taken);
            i += 1;
        }
        proof {
            assert(indexes@.take(indexes@.len() as int) == indexes@);
            assert(batches@ =~= pull_results(store, indexes@));
            assert forall|k: u64| #[trigger] left_over@.contains_key(k) implies k
                < self.last_used_index by {
                assert(store.contains_key(k));
            }
        }
        std::mem::swap(&mut self.promises, &mut left_over);
        Ok(batches)
    }
}

/// Turns the promises of a batch into their stored form, in order, each
/// stamped with `sender`.
fn stamp(sender: &AccountId, promises: Vec<Promise>) -> (stored: Vec<PromiseOutput>)
    ensures
        stamped(stored@, promises@, sender@),
{
    let ghost batch = promises@;
    let mut rest = promises;
    let mut reversed: Vec<PromiseOutput> = Vec::new();
    while rest.len() > 0
        invariant
            rest@.len() + reversed@.len() == batch.len(),
            rest@ == batch.take(rest@.len() as int),
            forall|j: int|
                0 <= j < reversed@.len() ==> (#[trigger] reversed@[j]).promise == batch[batch.len()
                    - 1 - j] && reversed@[j].sender@ == sender@,
        decreases rest.len(),
    {
        let last = rest.pop();
        match last {
            Some(promise) => {
                reversed.push(PromiseOutput { sender: sender.duplicate(), promise });
            },
            None => {},
        }
    }
    let ghost turned = reversed@;
    let mut stored: Vec<PromiseOutput> = Vec::new();
    while reversed.len() > 0
        invariant
            turned.len() == batch.len(),
            reversed@.len() + stored@.len() == turned.len(),
            reversed@ == turned.take(reversed@.len() as int),
            forall|j: int|
                0 <= j < stored@.len() ==> #[trigger] stored@[j] == turned[turned.len() - 1 - j],
        decreases reversed.len(),
    {
        let last = reversed.pop();
        match last {
            Some(output) => {
                stored.push(output);
            },
            None => {},
        }
    }
    stored
}

} // verus!
