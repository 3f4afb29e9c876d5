//! What holds of a router over more than one call, and of the byte layouts
//! when what was written is read again.

use vstd::prelude::*;
use crate::budget::ResourceBudget;
use crate::promise::PromiseOutput;
use crate::router::router_step;
use crate::router::RouterCall;
use crate::router::found;
use crate::router::outcomes_demand;
use crate::router::outcomes_demand_upto;
use crate::router::required;
use crate::router::required_upto;
use crate::router::pull_outcome;
use crate::router::pull_results;
use crate::router::store_after_pull;
use crate::router::RouterView;
use crate::wire::entry_point_of;
use crate::wire::index_list_bytes;
use crate::wire::indexes_bytes;
use crate::wire::is_index_list;
use crate::wire::is_pull_call;
use crate::wire::pull_call_budget;
use crate::wire::pull_call_indexes;
use crate::wire::u128_le;
use crate::wire::le_bytes;
use crate::wire::listed_indexes;
use crate::wire::pull_call_bytes;
use crate::wire::u32_le;
use crate::wire::u64_le;
use crate::wire::EntryPoint;

verus! {

/// A run of calls on one router: each call leads from one state to the
/// next.
pub open spec fn is_run(states: Seq<RouterView>, calls: Seq<RouterCall>) -> bool {
    &&& states.len() == calls.len() + 1
    &&& forall|k: int|
        0 <= k < calls.len() ==> router_step(states[k], #[trigger] calls[k], states[k + 1])
}

/// Along a run the counter never goes down.
pub proof fn lemma_counter_never_falls(
    states: Seq<RouterView>,
    calls: Seq<RouterCall>,
    a: int,
    b: int,
)
    requires
        is_run(states, calls),
        0 <= a <= b < states.len(),
    ensures
        states[a].last_used_index <= states[b].last_used_index,
    decreases b - a,
{
    if a < b {
        lemma_counter_never_falls(states, calls, a, b - 1);
        assert(router_step(states[b - 1], calls[b - 1], states[b - 1 + 1]));
    }
}

/// The indices that a router gives out grow strictly, and so never repeat:
/// of any two accepted schedules in a run, with refused calls and pulls in
/// between as they come, the later one gets the larger index.
pub proof fn law_indexes_increase(
    states: Seq<RouterView>,
    calls: Seq<RouterCall>,
    i: int,
    j: int,
)
    requires
        is_run(states, calls),
        0 <= i < j < calls.len(),
        calls[i] is Scheduled,
        calls[j] is Scheduled,
    ensures
        calls[i]->index < calls[j]->index,
{
    assert(router_step(states[i], calls[i], states[i + 1]));
    assert(router_step(states[j], calls[j], states[j + 1]));
    lemma_counter_never_falls(states, calls, i + 1, j);
}

/// Every stored batch sits under an index that was given out, at every
/// state of a run that begins so.
pub proof fn law_store_stays_below_counter(
    states: Seq<RouterView>,
    calls: Seq<RouterCall>,
    b: int,
)
    requires
        is_run(states, calls),
        states[0].wf(),
        0 <= b < states.len(),
    ensures
        states[b].wf(),
    decreases b,
{
    if b > 0 {
        law_store_stays_below_counter(states, calls, b - 1);
        assert(router_step(states[b - 1], calls[b - 1], states[b - 1 + 1]));
    }
}

/// An index that was given out and is not in the store never comes back:
/// no later call of the run puts a batch under it again. A batch is handed
/// out at most once.
pub proof fn law_spent_index_stays_spent(
    states: Seq<RouterView>,
    calls: Seq<RouterCall>,
    a: int,
    b: int,
    index: u64,
)
    requires
        is_run(states, calls),
        0 <= a <= b < states.len(),
        index < states[a].last_used_index,
        !states[a].store.contains_key(index),
    ensures
        !states[b].store.contains_key(index),
    decreases b - a,
{
    if a < b {
        law_spent_index_stays_spent(states, calls, a, b - 1, index);
        lemma_counter_never_falls(states, calls, a, b - 1);
        assert(router_step(states[b - 1], calls[b - 1], states[b - 1 + 1]));
    }
}

/// An index that one pull asked for is gone from the store after it, so a
/// request for it in a second pull finds nothing.
pub proof fn law_pulled_index_is_gone(
    store: Map<u64, Vec<PromiseOutput>>,
    first: Seq<u64>,
    second: Seq<u64>,
    i: int,
    j: int,
)
    requires
        0 <= i < first.len(),
        0 <= j < second.len(),
        first[i] == second[j],
    ensures
        !store_after_pull(store, first).contains_key(first[i]),
        pull_outcome(store_after_pull(store, first), second, j).is_none(),
{
    assert(first.contains(first[i]));
}

/// Within one pull, the first request for a stored index gets its batch and
/// every later request for the same index gets nothing.
pub proof fn law_first_request_takes_batch(
    store: Map<u64, Vec<PromiseOutput>>,
    indexes: Seq<u64>,
    i: int,
    j: int,
)
    requires
        0 <= i < j < indexes.len(),
        indexes[i] == indexes[j],
        store.contains_key(indexes[i]),
        forall|k: int| 0 <= k < i ==> indexes[k] != indexes[i],
    ensures
        pull_outcome(store, indexes, i) == Some(store[indexes[i]]),
        pull_outcome(store, indexes, j).is_none(),
{
    assert forall|k: int| 0 <= k < indexes.take(i).len() implies indexes.take(i)[k]
        != indexes[i] by {
        assert(indexes.take(i)[k] == indexes[k]);
    }
    assert(indexes.take(j)[i] == indexes[j]);
}

/// Pulling one index twice: the first pull yields the batch, if one is
/// stored under the index, and the second yields nothing.
pub proof fn law_pull_twice(store: Map<u64, Vec<PromiseOutput>>, index: u64)
    ensures
        pull_results(store, seq![index]) == seq![
            if store.contains_key(index) {
                Some(store[index])
            } else {
                None
            },
        ],
        pull_results(store_after_pull(store, seq![index]), seq![index]) == seq![
            None::<Vec<PromiseOutput>>,
        ],
{
    let once = seq![index];
    assert(once.take(0).len() == 0);
    assert(found(store, once, 0) == store.contains_key(index));
    law_pulled_index_is_gone(store, once, once, 0, 0);
    assert(pull_results(store, once) =~= seq![
        if store.contains_key(index) {
            Some(store[index])
        } else {
            None
        },
    ]);
    assert(pull_results(store_after_pull(store, once), once) =~= seq![
        None::<Vec<PromiseOutput>>,
    ]);
}

/// What the first requests of a pull need is what the batches among their
/// outcomes cost.
pub proof fn lemma_required_is_cost_of_outcomes(
    store: Map<u64, Vec<PromiseOutput>>,
    indexes: Seq<u64>,
    n: nat,
)
    requires
        n <= indexes.len(),
    ensures
        required_upto(store, indexes, n) == outcomes_demand_upto(
            pull_results(store, indexes),
            n,
        ),
    decreases n,
{
    if n > 0 {
        lemma_required_is_cost_of_outcomes(store, indexes, (n - 1) as nat);
        assert(pull_results(store, indexes)[n - 1] == pull_outcome(store, indexes, n - 1));
    }
}

/// A granted pull hands out no more than was declared: the budget that
/// covers what the requests need covers the batches that come out, and
/// these cost exactly what was needed.
pub proof fn law_budget_covers_what_is_released(
    store: Map<u64, Vec<PromiseOutput>>,
    indexes: Seq<u64>,
    total: ResourceBudget,
)
    requires
        total.affords(required(store, indexes)),
    ensures
        outcomes_demand(pull_results(store, indexes)) == required(store, indexes),
        total.affords(outcomes_demand(pull_results(store, indexes))),
{
    lemma_required_is_cost_of_outcomes(store, indexes, indexes.len());
}

/// Four bytes written for a number that fits them spell that number.
pub proof fn lemma_four_bytes_round_trip(value: nat)
    requires
        value <= u32::MAX,
    ensures
        le_bytes(value, 4).len() == 4,
        u32_le(le_bytes(value, 4), 0) == value,
{
    reveal_with_fuel(le_bytes, 5);
}

/// Eight bytes written for a number that fits them spell that number.
pub proof fn lemma_eight_bytes_round_trip(value: nat)
    requires
        value <= u64::MAX,
    ensures
        le_bytes(value, 8).len() == 8,
        u64_le(le_bytes(value, 8), 0) == value,
{
    reveal_with_fuel(le_bytes, 9);
}

/// The bytes written for some indices hold eight bytes for each, and the
/// eight bytes at each place spell the index written there.
pub proof fn lemma_indexes_bytes_spell(indexes: Seq<u64>)
    ensures
        indexes_bytes(indexes).len() == 8 * indexes.len(),
        forall|j: int|
            0 <= j < indexes.len() ==> u64_le(indexes_bytes(indexes), 8 * j) == #[trigger] indexes[j],
    decreases indexes.len(),
{
    if indexes.len() > 0 {
        let front = indexes.drop_last();
        let tail = le_bytes(indexes.last() as nat, 8);
        lemma_indexes_bytes_spell(front);
        lemma_eight_bytes_round_trip(indexes.last() as nat);
        assert forall|j: int| 0 <= j < indexes.len() implies u64_le(
            indexes_bytes(indexes),
            8 * j,
        ) == #[trigger] indexes[j] by {
            if j < front.len() {
                assert(front[j] == indexes[j]);
                assert(u64_le(indexes_bytes(front) + tail, 8 * j) == u64_le(
                    indexes_bytes(front),
                    8 * j,
                ));
            } else {
                assert(u64_le(indexes_bytes(front) + tail, 8 * j) == u64_le(tail, 0));
            }
        }
    }
}

/// Reading a written list of indices gives the list back.
pub proof fn law_index_list_round_trip(indexes: Seq<u64>)
    requires
        indexes.len() <= u32::MAX,
    ensures
        is_index_list(index_list_bytes(indexes)),
        listed_indexes(index_list_bytes(indexes)) == indexes,
{
    let head = le_bytes(indexes.len(), 4);
    let bytes = index_list_bytes(indexes);
    lemma_four_bytes_round_trip(indexes.len());
    lemma_indexes_bytes_spell(indexes);
    assert(u32_le(bytes, 0) == u32_le(head, 0));
    assert forall|j: int| 0 <= j < indexes.len() implies u64_le(bytes, 4 + 8 * j)
        == #[trigger] indexes[j] by {
        assert(u64_le(bytes, 4 + 8 * j) == u64_le(indexes_bytes(indexes), 8 * j));
    }
    assert(listed_indexes(bytes) =~= indexes);
}

/// Sixteen bytes written for a number that fits them spell that number.
pub proof fn lemma_sixteen_bytes_round_trip(value: nat)
    requires
        value <= u128::MAX,
    ensures
        le_bytes(value, 16).len() == 16,
        u128_le(le_bytes(value, 16), 0) == value,
{
    reveal_with_fuel(le_bytes, 17);
}

/// Reading the input written for a pull gives back the indices asked for
/// and the budget declared.
pub proof fn law_pull_call_round_trip(indexes: Seq<u64>, total: ResourceBudget)
    requires
        indexes.len() <= u32::MAX,
    ensures
        is_pull_call(pull_call_bytes(indexes, total)),
        pull_call_indexes(pull_call_bytes(indexes, total)) == indexes,
        pull_call_budget(pull_call_bytes(indexes, total)) == total,
{
    let bytes = pull_call_bytes(indexes, total);
    let list = index_list_bytes(indexes);
    let compute = le_bytes(total.compute as nat, 16);
    let value = le_bytes(total.value as nat, 16);
    law_index_list_round_trip(indexes);
    law_pull_call_addresses_pull(indexes, total);
    lemma_sixteen_bytes_round_trip(total.compute as nat);
    lemma_sixteen_bytes_round_trip(total.value as nat);
    assert(bytes.len() == 4 + list.len() + 32);
    assert(bytes.subrange(4, bytes.len() - 32) =~= list);
    assert(u128_le(bytes, bytes.len() - 32) == u128_le(compute, 0));
    assert(u128_le(bytes, bytes.len() - 16) == u128_le(value, 0));
}

/// The input written for a pull addresses the pull.
pub proof fn law_pull_call_addresses_pull(indexes: Seq<u64>, total: ResourceBudget)
    ensures
        entry_point_of(pull_call_bytes(indexes, total)) == Some(EntryPoint::Pull),
{
    let bytes = pull_call_bytes(indexes, total);
    assert(bytes[0] == 0x32u8 && bytes[1] == 0x9eu8 && bytes[2] == 0xb8u8 && bytes[3] == 0x39u8);
}

} // verus!
