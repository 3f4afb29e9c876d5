//! The coordinator: the account that has the engine schedule promises,
//! pulls them from the router and issues the calls they describe. It only
//! decides; each step hands back what is to be done on the host ledger, and
//! the next step takes what came of it.

use vstd::prelude::*;
use crate::account::AccountId;
use crate::account::append_bytes;
use crate::budget::ResourceBudget;
use crate::promise::output_references_valid;
use crate::promise::Method;
use crate::promise::PromiseOutput;
use crate::resolver::link_of;
use crate::resolver::resolve;
use crate::resolver::ChainLink;
use crate::router::PullError;
use crate::wire::is_index_list;
use crate::wire::listed_indexes;
use crate::wire::parse_promise_indexes;

verus! {

/// A million million units of gas.
pub const TGAS: u128 = 1_000_000_000_000;

/// The coordinator's own overhead for issuing the pulled calls.
pub const EXECUTE_GAS: u128 = 3 * TGAS;

/// What the pull itself is given.
pub const PULL_GAS: u128 = 3 * TGAS;

/// The overhead of the pull step and of all that follows it.
pub const PULL_AND_EXECUTE_GAS: u128 = 3 * TGAS + PULL_GAS + EXECUTE_GAS;

/// The overhead of reading the engine's result and of all that follows it.
pub const ON_SCHEDULE_GAS: u128 = 3 * TGAS + PULL_AND_EXECUTE_GAS;

/// Where a coordinator stands.
#[derive(Clone, Copy, Debug, PartialEq, Eq, Structural)]
pub enum Phase {
    Idle,
    AwaitingEngineResult,
    AwaitingPullResult,
    AwaitingExecution,
    Done,
    /// Reached from any phase when a step fails; never left.
    Failed,
}

/// Why a step of the coordinator fails.
#[derive(Clone, Copy, Debug, PartialEq, Eq, Structural)]
pub enum CoordinatorError {
    /// The step does not belong to the phase the coordinator is in. The
    /// coordinator stays where it was.
    WrongPhase,
    /// The engine's result is not a list of indices.
    MalformedIndexes,
    /// What the coordinator was given does not cover the budget it is asked
    /// to commit together with its own overhead.
    ResourceExhausted,
    /// The router refused the pull.
    PullRefused(PullError),
    /// A pulled batch holds a combinator that does not refer backward.
    BadReference,
}

/// The gas and the balance attached to one call.
#[derive(Clone, Copy, Debug, PartialEq, Eq, Structural)]
pub struct Attachment {
    pub gas: u128,
    pub balance: u128,
}

/// The first step's outcome: submit `payload` to `engine` with `submit`
/// attached, and come back with the result, `total` and `callback` attached.
#[derive(Clone, Debug, PartialEq, Eq)]
pub struct SubmitStep {
    pub engine: AccountId,
    pub payload: Vec<u8>,
    pub submit: Attachment,
    pub total: ResourceBudget,
    pub callback: Attachment,
}

/// The second step's outcome: pull `indexes` from the router inside
/// `engine`, declaring `total`, with `pull` attached, and come back with the
/// result and `callback` attached.
#[derive(Clone, Debug, PartialEq, Eq)]
pub struct PullStep {
    pub engine: AccountId,
    pub indexes: Vec<u64>,
    pub total: ResourceBudget,
    pub pull: Attachment,
    pub callback: Attachment,
}

/// One call to issue.
#[derive(Clone, Debug, PartialEq, Eq)]
pub struct PlannedCall {
    pub target: AccountId,
    pub method: Method,
    pub payload: Vec<u8>,
    pub gas: u128,
    pub balance: u128,
    pub link: ChainLink,
}

/// The coordinator has been given enough to commit `total`: gas for `total`
/// and its own overhead, and balance for `total`.
pub open spec fn pull_funded(total: ResourceBudget, prepaid_gas: u128, attached_balance: u128)
    -> bool {
    prepaid_gas >= total.compute + PULL_AND_EXECUTE_GAS && attached_balance >= total.value
}

/// What the second step hands back for these arguments.
pub open spec fn is_pull_step(
    step: PullStep,
    engine: AccountId,
    indexes: Seq<u64>,
    total: ResourceBudget,
) -> bool {
    &&& step.engine == engine
    &&& step.indexes@ == indexes
    &&& step.total == total
    &&& step.pull == (Attachment { gas: PULL_GAS, balance: 0 })
    &&& step.callback.gas == total.compute + EXECUTE_GAS
    &&& step.callback.balance == total.value
}

/// The payload of an issued call: a version tag of zero, the length of the
/// engine's name in one byte, that name, the sender, and the payload as it
/// was scheduled.
pub open spec fn auth_payload(engine: Seq<u8>, sender: Seq<u8>, payload: Seq<u8>) -> Seq<u8> {
    seq![0u8, (engine.len() % 256) as u8] + engine + sender + payload
}

/// `call` is the call to issue for `record`.
pub open spec fn is_call_for(call: PlannedCall, engine: Seq<u8>, record: PromiseOutput) -> bool {
    &&& call.target@ == record.promise.target@
    &&& call.method@ == record.promise.method@
    &&& call.payload@ == auth_payload(engine, record.sender@, record.promise.payload@)
    &&& call.gas == record.promise.compute_cost
    &&& call.balance == record.promise.value_cost
    &&& call.link == link_of(record.promise.combinator)
}

/// `calls` are the calls to issue for `batch`, position by position.
pub open spec fn are_calls_for(calls: Seq<PlannedCall>, engine: Seq<u8>, batch: Seq<PromiseOutput>)
    -> bool {
    &&& calls.len() == batch.len()
    &&& forall|i: int| 0 <= i < batch.len() ==> is_call_for(#[trigger] calls[i], engine, batch[i])
}

/// The batches among the first `n` outcomes of a pull, in order.
pub open spec fn retained_upto(pulled: Seq<Option<Vec<PromiseOutput>>>, n: nat) -> Seq<
    Vec<PromiseOutput>,
>
    decreases n,
{
    if n == 0 {
        Seq::empty()
    } else {
        match pulled[n - 1] {
            Some(batch) => retained_upto(pulled, (n - 1) as nat).push(batch),
            None => retained_upto(pulled, (n - 1) as nat),
        }
    }
}

/// The batches that a pull has found, in the order of its outcomes.
pub open spec fn retained(pulled: Seq<Option<Vec<PromiseOutput>>>) -> Seq<Vec<PromiseOutput>> {
    retained_upto(pulled, pulled.len())
}

/// Every batch among the first `n` outcomes has backward references only.
pub open spec fn pulled_valid(pulled: Seq<Option<Vec<PromiseOutput>>>, n: int) -> bool {
    forall|i: int|
        0 <= i < n ==> match #[trigger] pulled[i] {
            Some(batch) => output_references_valid(batch@),
            None => true,
        }
}

/// `plan` holds the calls to issue for `batches`, batch by batch.
pub open spec fn is_plan_for(
    plan: Seq<Vec<PlannedCall>>,
    engine: Seq<u8>,
    batches: Seq<Vec<PromiseOutput>>,
) -> bool {
    &&& plan.len() == batches.len()
    &&& forall|b: int|
        0 <= b < batches.len() ==> are_calls_for((#[trigger] plan[b])@, engine, batches[b]@)
}

/// Builds the payload of an issued call.
fn authenticate(engine: &AccountId, sender: &AccountId, payload: &Vec<u8>) -> (out: Vec<u8>)
    ensures
        out@ == auth_payload(engine@, sender@, payload@),
{
    let mut out: Vec<u8> = Vec::new();
    out.push(0u8);
    out.push((engine.bytes.len() % 256) as u8);
    assert(out@ == seq![0u8, (engine@.len() % 256) as u8]);
    append_bytes(&mut out, &engine.bytes);
    append_bytes(&mut out, &sender.bytes);
    append_bytes(&mut out, payload);
    out
}

/// Plans the calls of one batch, or refuses it where a combinator does not
/// refer to a strictly earlier position.
fn plan_batch(engine: &AccountId, batch: &Vec<PromiseOutput>) -> (planned: Option<
    Vec<PlannedCall>,
>)
    ensures
        match planned {
            Some(calls) => output_references_valid(batch@) && are_calls_for(
                calls@,
                engine@,
                batch@,
            ),
            None => !output_references_valid(batch@),
        },
{
    let links = match resolve(batch) {
        Ok(links) => links,
        Err(_) => {
            return None;
        },
    };
    let mut calls: Vec<PlannedCall> = Vec::new();
    let mut i: usize = 0;
    while i < batch.len()
        invariant
            i <= batch.len(),
            links@.len() == batch@.len(),
            forall|j: int|
                0 <= j < batch@.len() ==> #[trigger] links@[j] == link_of(
                    batch@[j].promise.combinator,
                ),
            calls@.len() == i,
            forall|j: int| 0 <= j < i ==> is_call_for(#[trigger] calls@[j], engine@, batch@[j]),
        decreases batch.len() - i,
    {
        let record = &batch[i];
        let call = PlannedCall {
            target: record.promise.target.duplicate(),
            method: record.promise.method.duplicate(),
            payload: authenticate(engine, &record.sender, &record.promise.payload),
            gas: record.promise.compute_cost,
            balance: record.promise.value_cost,
            link: links[i],
        };
        calls.push(call);
        i += 1;
    }
    Some(calls)
}

/// The coordinator. Its view is the phase it is in.
pub struct AsyncAurora {
    phase: Phase,
}

impl View for AsyncAurora {
    type V = Phase;

    closed spec fn view(&self) -> Phase {
        self.phase
    }
}

impl AsyncAurora {
    /// A coordinator that has not begun.
    pub fn new() -> (coordinator: AsyncAurora)
        ensures
            coordinator@ == Phase::Idle,
    {
        AsyncAurora { phase: Phase::Idle }
    }

    /// The phase the coordinator is in.
    pub fn phase(&self) -> (phase: Phase)
        ensures
            phase == self@,
    {
        self.phase
    }

    /// First step: have the engine run `submit_payload`, and come back for
    /// the promises it schedules. Fails where the gas for the way back, the
    /// budget's compute and the overhead together, cannot be written down.
    pub fn schedule_and_execute(
        &mut self,
        aurora: AccountId,
        submit_payload: Vec<u8>,
        submit_gas: u128,
        total: ResourceBudget,
    ) -> (step: Result<SubmitStep, CoordinatorError>)
        ensures
            match step {
                Ok(s) => {
                    &&& old(self)@ == Phase::Idle
                    &&& final(self)@ == Phase::AwaitingEngineResult
                    &&& s.engine == aurora
                    &&& s.payload == submit_payload
                    &&& s.submit == (Attachment { gas: submit_gas, balance: 0 })
                    &&& s.total == total
                    &&& s.callback.gas == total.compute + ON_SCHEDULE_GAS
                    &&& s.callback.balance == total.value
                },
                Err(e) => if old(self)@ != Phase::Idle {
                    e == CoordinatorError::WrongPhase && final(self)@ == old(self)@
                } else {
                    &&& total.compute + ON_SCHEDULE_GAS > u128::MAX
                    &&& e == CoordinatorError::ResourceExhausted
                    &&& final(self)@ == Phase::Failed
                },
            },
    {
        if self.phase != Phase::Idle {
            return Err(CoordinatorError::WrongPhase);
        }
        if total.compute > u128::MAX - ON_SCHEDULE_GAS {
            self.phase = Phase::Failed;
            return Err(CoordinatorError::ResourceExhausted);
        }
        self.phase = Phase::AwaitingEngineResult;
        Ok(
            SubmitStep {
                engine: aurora,
                payload: submit_payload,
                submit: Attachment { gas: submit_gas, balance: 0 },
                total,
                callback: Attachment { gas: total.compute + ON_SCHEDULE_GAS, balance: total.value },
            },
        )
    }

    /// Second step, entered with the engine's result: read the indices of
    /// the scheduled batches out of it and go on to pull them.
    pub fn on_schedule(
        &mut self,
        aurora: AccountId,
        engine_result: &Vec<u8>,
        total: ResourceBudget,
        prepaid_gas: u128,
        attached_balance: u128,
    ) -> (step: Result<PullStep, CoordinatorError>)
        ensures
            match step {
                Ok(s) => {
                    &&& old(self)@ == Phase::AwaitingEngineResult
                    &&& is_index_list(engine_result@)
                    &&& pull_funded(total, prepaid_gas, attached_balance)
                    &&& is_pull_step(s, aurora, listed_indexes(engine_result@), total)
                    &&& final(self)@ == Phase::AwaitingExecution
                },
                Err(e) => if old(self)@ != Phase::AwaitingEngineResult {
                    e == CoordinatorError::WrongPhase && final(self)@ == old(self)@
                } else if !is_index_list(engine_result@) {
                    e == CoordinatorError::MalformedIndexes && final(self)@ == Phase::Failed
                } else {
                    &&& !pull_funded(total, prepaid_gas, attached_balance)
                    &&& e == CoordinatorError::ResourceExhausted
                    &&& final(self)@ == Phase::Failed
                },
            },
    {
        if self.phase != Phase::AwaitingEngineResult {
            return Err(CoordinatorError::WrongPhase);
        }
        match parse_promise_indexes(engine_result) {
            Some(promise_index) => {
                self.phase = Phase::AwaitingPullResult;
                self.pull_and_execute(aurora, promise_index, total, prepaid_gas, attached_balance)
            },
            None => {
                self.phase = Phase::Failed;
                Err(CoordinatorError::MalformedIndexes)
            },
        }
    }

    /// Pull step: commit `total` and ask the router for the batches under
    /// `promise_index`. It follows the reading of the engine's result, or
    /// opens a run whose indices are known beforehand. Fails, for good,
    /// unless `prepaid_gas` covers the budget's compute and the overhead, and
    /// `attached_balance` the budget's value.
    pub fn pull_and_execute(
        &mut self,
        aurora: AccountId,
        promise_index: Vec<u64>,
        total: ResourceBudget,
        prepaid_gas: u128,
        attached_balance: u128,
    ) -> (step: Result<PullStep, CoordinatorError>)
        ensures
            match step {
                Ok(s) => {
                    &&& old(self)@ == Phase::AwaitingPullResult || old(self)@ == Phase::Idle
                    &&& pull_funded(total, prepaid_gas, attached_balance)
                    &&& is_pull_step(s, aurora, promise_index@, total)
                    &&& s.indexes == promise_index
                    &&& final(self)@ == Phase::AwaitingExecution
                },
                Err(e) => if old(self)@ != Phase::AwaitingPullResult && old(self)@ != Phase::Idle {
                    e == CoordinatorError::WrongPhase && final(self)@ == old(self)@
                } else {
                    &&& !pull_funded(total, prepaid_gas, attached_balance)
                    &&& e == CoordinatorError::ResourceExhausted
                    &&& final(self)@ == Phase::Failed
                },
            },
    {
        if self.phase != Phase::AwaitingPullResult && self.phase != Phase::Idle {
            return Err(CoordinatorError::WrongPhase);
        }
        if prepaid_gas < PULL_AND_EXECUTE_GAS || prepaid_gas - PULL_AND_EXECUTE_GAS
            < total.compute || attached_balance < total.value {
            self.phase = Phase::Failed;
            return Err(CoordinatorError::ResourceExhausted);
        }
        self.phase = Phase::AwaitingExecution;
        Ok(
            PullStep {
                engine: aurora,
                indexes: promise_index,
                total,
                pull: Attachment { gas: PULL_GAS, balance: 0 },
                callback: Attachment { gas: total.compute + EXECUTE_GAS, balance: total.value },
            },
        )
    }

    /// Last step, entered with what the pull gave: drop the indices under
    /// which nothing was found and plan one call per promise of the batches
    /// that remain, batch by batch and in the order of each batch, every
    /// payload rebuilt behind the engine's name and the sender, every call
    /// linked as its combinator asks. Fails, for good, where the router
    /// refused the pull or a batch holds a reference that is not backward.
    pub fn execute(
        &mut self,
        aurora: &AccountId,
        pulled: Result<Vec<Option<Vec<PromiseOutput>>>, PullError>,
    ) -> (plan: Result<Vec<Vec<PlannedCall>>, CoordinatorError>)
        ensures
            match plan {
                Ok(calls) => {
                    &&& old(self)@ == Phase::AwaitingExecution
                    &&& pulled.is_ok()
                    &&& pulled_valid(pulled.unwrap()@, pulled.unwrap()@.len() as int)
                    &&& is_plan_for(calls@, aurora@, retained(pulled.unwrap()@))
                    &&& final(self)@ == Phase::Done
                },
                Err(e) => if old(self)@ != Phase::AwaitingExecution {
                    e == CoordinatorError::WrongPhase && final(self)@ == old(self)@
                } else {
                    &&& final(self)@ == Phase::Failed
                    &&& match pulled {
                        Err(refusal) => e == CoordinatorError::PullRefused(refusal),
                        Ok(batches) => e == CoordinatorError::BadReference && !pulled_valid(
                            batches@,
                            batches@.len() as int,
                        ),
                    }
                },
            },
    {
        if self.phase != Phase::AwaitingExecution {
            return Err(CoordinatorError::WrongPhase);
        }
        let batches = match pulled {
            Ok(batches) => batches,
            Err(refusal) => {
                self.phase = Phase::Failed;
                return Err(CoordinatorError::PullRefused(refusal));
            },
        };
        let mut plan: Vec<Vec<PlannedCall>> = Vec::new();
        let mut i: usize = 0;
        while i < batches.len()
            invariant
                i <= batches.len(),
                self.phase == Phase::AwaitingExecution,
                old(self)@ == Phase::AwaitingExecution,
                pulled == Ok::<Vec<Option<Vec<PromiseOutput>>>, PullError>(batches),
                pulled_valid(batches@, i as int),
                is_plan_for(plan@, aurora@, retained_upto(batches@, i as nat)),
            decreases batches.len() - i,
        {
            match &batches[i] {
                Some(batch) => {
                    match plan_batch(aurora, batch) {
                        Some(calls) => {
                            plan.push(calls);
                        },
                        None => {
                            assert(batches@[i as int] == Some(*batch));
                            self.phase = Phase::Failed;
                            return Err(CoordinatorError::BadReference);
                        },
                    }
                },
                None => {},
            }
            i += 1;
        }
        self.phase = Phase::Done;
        Ok(plan)
    }
}

} // verus!
