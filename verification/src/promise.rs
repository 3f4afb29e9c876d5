//! Promises: descriptions of calls to be made later, the combinators that
//! order them within a batch, and what a batch costs.

use vstd::prelude::*;
use crate::account::AccountId;
use crate::account::copy_bytes;
use crate::budget::Demand;

verus! {

/// Why a batch or one of its parts is refused.
#[derive(Clone, Copy, Debug, PartialEq, Eq, Structural)]
pub enum ValidationError {
    /// A method name is empty or holds a byte outside the grammar.
    MalformedMethod,
    /// A batch holds no promise.
    EmptyBatch,
    /// A combinator refers to its own position, a later one, or none.
    BadReference,
}

/// A byte that may stand in a method name: an ASCII letter, a digit or `_`.
pub open spec fn is_name_byte(b: u8) -> bool {
    (0x61 <= b <= 0x7a) || (0x41 <= b <= 0x5a) || (0x30 <= b <= 0x39) || b == 0x5f
}

/// The grammar of method names: at least one byte, each a name byte.
pub open spec fn is_method_name(name: Seq<u8>) -> bool {
    name.len() > 0 && forall|i: int| 0 <= i < name.len() ==> is_name_byte(#[trigger] name[i])
}

/// A method name that has passed the grammar. Its view is the name's bytes.
#[derive(Debug, PartialEq, Eq)]
pub struct Method {
    name: Vec<u8>,
}

impl View for Method {
    type V = Seq<u8>;

    closed spec fn view(&self) -> Seq<u8> {
        self.name@
    }
}

impl Method {
    #[verifier::type_invariant]
    spec fn well_formed(self) -> bool {
        is_method_name(self.name@)
    }

    /// Accepts `name` exactly where it follows the grammar.
    pub fn new(name: Vec<u8>) -> (made: Result<Method, ValidationError>)
        ensures
            is_method_name(name@) ==> made.is_ok() && made.unwrap()@ == name@,
            !is_method_name(name@) ==> made == Err::<Method, ValidationError>(
                ValidationError::MalformedMethod,
            ),
    {
        if name.len() == 0 {
            return Err(ValidationError::MalformedMethod);
        }
        let mut i: usize = 0;
        while i < name.len()
            invariant
                i <= name.len(),
                forall|j: int| 0 <= j < i ==> is_name_byte(#[trigger] name@[j]),
            decreases name.len() - i,
        {
            let b: u8 = name[i];
            let ok = (0x61 <= b && b <= 0x7a) || (0x41 <= b && b <= 0x5a) || (0x30 <= b && b
                <= 0x39) || b == 0x5f;
            if !ok {
                return Err(ValidationError::MalformedMethod);
            }
            i += 1;
        }
        Ok(Method { name })
    }

    /// The name's bytes, which always follow the grammar.
    pub fn as_bytes(&self) -> (bytes: &Vec<u8>)
        ensures
            bytes@ == self@,
            is_method_name(bytes@),
    {
        proof {
            use_type_invariant(self);
        }
        &self.name
    }

    /// A second method name with the same bytes.
    pub fn duplicate(&self) -> (copy: Method)
        ensures
            copy@ == self@,
    {
        proof {
            use_type_invariant(self);
        }
        Method { name: copy_bytes(&self.name) }
    }
}

impl Clone for Method {
    fn clone(&self) -> (copy: Method)
        ensures
            copy@ == self@,
    {
        self.duplicate()
    }
}

/// How a promise is tied to an earlier one of its batch.
#[derive(Clone, Copy, Debug, PartialEq, Eq, Structural)]
pub enum CombinatorMode {
    /// Run only after the earlier promise has completed, on its result.
    Then,
    /// Run independently, and report jointly with the earlier promise.
    And,
}

/// An ordering relation to the promise at position `ref_index` of the same
/// batch.
#[derive(Clone, Copy, Debug, PartialEq, Eq, Structural)]
pub struct Combinator {
    pub mode: CombinatorMode,
    pub ref_index: u8,
}

/// One deferred call, as the caller hands it to the router.
#[derive(Clone, Debug, PartialEq, Eq)]
pub struct Promise {
    pub target: AccountId,
    pub method: Method,
    pub payload: Vec<u8>,
    pub compute_cost: u128,
    pub value_cost: u128,
    pub combinator: Option<Combinator>,
}

/// A promise together with the account that scheduled it. The router fills
/// in `sender` from the caller it was told of; the promise itself never
/// carries it.
#[derive(Clone, Debug, PartialEq, Eq)]
pub struct PromiseOutput {
    pub sender: AccountId,
    pub promise: Promise,
}

/// What a promise says, field by field.
pub struct PromiseView {
    pub target: Seq<u8>,
    pub method: Seq<u8>,
    pub payload: Seq<u8>,
    pub compute_cost: u128,
    pub value_cost: u128,
    pub combinator: Option<Combinator>,
}

impl View for Promise {
    type V = PromiseView;

    open spec fn view(&self) -> PromiseView {
        PromiseView {
            target: self.target@,
            method: self.method@,
            payload: self.payload@,
            compute_cost: self.compute_cost,
            value_cost: self.value_cost,
            combinator: self.combinator,
        }
    }
}

/// What a stored promise says, field by field.
pub struct PromiseOutputView {
    pub sender: Seq<u8>,
    pub promise: PromiseView,
}

impl View for PromiseOutput {
    type V = PromiseOutputView;

    open spec fn view(&self) -> PromiseOutputView {
        PromiseOutputView { sender: self.sender@, promise: self.promise@ }
    }
}

/// What the promises handed to a schedule say, in order.
pub open spec fn promises_view(promises: Seq<Promise>) -> Seq<PromiseView> {
    promises.map_values(|promise: Promise| promise@)
}

/// What the promises of a batch say, in order.
pub open spec fn batch_view(batch: Seq<PromiseOutput>) -> Seq<PromiseOutputView> {
    batch.map_values(|output: PromiseOutput| output@)
}

/// What the outcome of one request says.
pub open spec fn outcome_view(outcome: Option<Vec<PromiseOutput>>) -> Option<
    Seq<PromiseOutputView>,
> {
    match outcome {
        Some(batch) => Some(batch_view(batch@)),
        None => None,
    }
}

/// What the outcomes of a pull say, in order.
pub open spec fn outcomes_view(outcomes: Seq<Option<Vec<PromiseOutput>>>) -> Seq<
    Option<Seq<PromiseOutputView>>,
> {
    outcomes.map_values(|outcome: Option<Vec<PromiseOutput>>| outcome_view(outcome))
}

/// The combinator at `position`, if there is one, refers to a strictly
/// earlier position.
pub open spec fn refers_backward(combinator: Option<Combinator>, position: int) -> bool {
    match combinator {
        Some(c) => (c.ref_index as int) < position,
        None => true,
    }
}

/// Every combinator among the first `n` promises refers backward.
pub open spec fn references_valid(batch: Seq<Promise>, n: int) -> bool {
    forall|i: int| 0 <= i < n ==> refers_backward(#[trigger] batch[i].combinator, i)
}

/// A batch that the router accepts: not empty, every reference backward.
pub open spec fn batch_valid(batch: Seq<Promise>) -> bool {
    batch.len() > 0 && references_valid(batch, batch.len() as int)
}

/// The same for a batch as the router hands it out.
pub open spec fn output_references_valid(batch: Seq<PromiseOutput>) -> bool {
    forall|i: int|
        0 <= i < batch.len() ==> refers_backward(#[trigger] batch[i].promise.combinator, i)
}

/// What the first `n` promises of a batch cost together.
pub open spec fn demand_upto(batch: Seq<PromiseOutput>, n: nat) -> Demand
    decreases n,
{
    if n == 0 {
        Demand::zero()
    } else {
        demand_upto(batch, (n - 1) as nat).plus(
            Demand {
                compute: batch[n - 1].promise.compute_cost as nat,
                value: batch[n - 1].promise.value_cost as nat,
            },
        )
    }
}

/// What a whole batch costs.
pub open spec fn batch_demand(batch: Seq<PromiseOutput>) -> Demand {
    demand_upto(batch, batch.len())
}

/// A longer prefix of a batch costs no less than a shorter one.
pub proof fn lemma_demand_grows(batch: Seq<PromiseOutput>, n: nat, m: nat)
    requires
        n <= m,
    ensures
        demand_upto(batch, n).within(demand_upto(batch, m)),
    decreases m,
{
    if n < m {
        lemma_demand_grows(batch, n, (m - 1) as nat);
    }
}

/// Checks that every combinator of the batch refers backward.
pub fn check_references(batch: &Vec<Promise>) -> (valid: bool)
    ensures
        valid == references_valid(batch@, batch@.len() as int),
{
    let mut i: usize = 0;
    while i < batch.len()
        invariant
            i <= batch.len(),
            references_valid(batch@, i as int),
        decreases batch.len() - i,
    {
        match batch[i].combinator {
            Some(c) => {
                if c.ref_index as usize >= i {
                    assert(!refers_backward(batch@[i as int].combinator, i as int));
                    return false;
                }
            },
            None => {},
        }
        i += 1;
    }
    true
}

} // verus!
