//! Reading what was written: the promises handed to a schedule and the
//! outcomes of a pull survive the way through their bytes.

use vstd::prelude::*;
use crate::codec::bytes_at;
use crate::codec::combinator_at;
use crate::codec::combinator_bytes;
use crate::codec::field_bytes;
use crate::codec::outcome_at;
use crate::codec::outcome_bytes;
use crate::codec::outcome_fits;
use crate::codec::outcomes_at;
use crate::codec::outcomes_bytes;
use crate::codec::output_at;
use crate::codec::output_bytes;
use crate::codec::output_fits;
use crate::codec::outputs_at;
use crate::codec::outputs_bytes;
use crate::codec::promise_at;
use crate::codec::promise_bytes;
use crate::codec::promise_fits;
use crate::codec::promises_at;
use crate::codec::promises_bytes;
use crate::codec::schedule_call_bytes;
use crate::codec::schedule_call_fits;
use crate::codec::schedule_call_of;
use crate::codec::pull_result_bytes;
use crate::codec::pull_result_fits;
use crate::codec::pull_result_of;
use crate::laws::lemma_four_bytes_round_trip;
use crate::laws::lemma_sixteen_bytes_round_trip;
use crate::promise::is_method_name;
use crate::promise::Combinator;
use crate::promise::PromiseOutputView;
use crate::promise::PromiseView;
use crate::wire::entry_point_of;
use crate::wire::le_bytes;
use crate::wire::EntryPoint;
use crate::wire::u128_le;
use crate::wire::u32_le;

verus! {

/// The bytes from `at` on begin with `part`.
pub open spec fn holds_at(bytes: Seq<u8>, at: int, part: Seq<u8>) -> bool {
    0 <= at && at + part.len() <= bytes.len() && bytes.subrange(at, at + part.len()) == part
}

/// Every method name among the promises of a batch follows the grammar.
pub open spec fn batch_named(batch: Seq<PromiseOutputView>) -> bool {
    forall|i: int| 0 <= i < batch.len() ==> is_method_name((#[trigger] batch[i]).promise.method)
}

/// Every method name among the outcomes follows the grammar.
pub open spec fn outcomes_named(outcomes: Seq<Option<Seq<PromiseOutputView>>>) -> bool {
    forall|i: int|
        0 <= i < outcomes.len() ==> match #[trigger] outcomes[i] {
            Some(batch) => batch_named(batch),
            None => true,
        }
}

/// A number written in `width` bytes takes `width` bytes.
pub proof fn lemma_le_bytes_len(value: nat, width: nat)
    ensures
        le_bytes(value, width).len() == width,
    decreases width,
{
    if width > 0 {
        lemma_le_bytes_len(value / 256, (width - 1) as nat);
    }
}

/// Where bytes begin with two parts in a row, they begin with the first,
/// and behind it with the second.
pub proof fn lemma_holds_split(bytes: Seq<u8>, at: int, front: Seq<u8>, back: Seq<u8>)
    requires
        holds_at(bytes, at, front + back),
    ensures
        holds_at(bytes, at, front),
        holds_at(bytes, at + front.len(), back),
{
    let whole = front + back;
    assert(bytes.subrange(at, at + front.len()) =~= bytes.subrange(at, at + whole.len()).subrange(
        0,
        front.len() as int,
    ));
    assert(whole.subrange(0, front.len() as int) =~= front);
    assert(bytes.subrange(at + front.len(), at + front.len() + back.len()) =~= bytes.subrange(
        at,
        at + whole.len(),
    ).subrange(front.len() as int, whole.len() as int));
    assert(whole.subrange(front.len() as int, whole.len() as int) =~= back);
}

/// Four bytes written for a number are read as that number wherever they
/// stand.
pub proof fn lemma_four_bytes_at(bytes: Seq<u8>, at: int, value: nat)
    requires
        value <= u32::MAX,
        holds_at(bytes, at, le_bytes(value, 4)),
    ensures
        u32_le(bytes, at) == value,
{
    let written = le_bytes(value, 4);
    lemma_four_bytes_round_trip(value);
    assert forall|k: int| 0 <= k < 4 implies bytes[at + k] == #[trigger] written[k] by {
        assert(bytes.subrange(at, at + 4)[k] == bytes[at + k]);
    }
    assert(bytes[at] == written[0]);
}

/// Sixteen bytes written for a number are read as that number wherever
/// they stand.
pub proof fn lemma_sixteen_bytes_at(bytes: Seq<u8>, at: int, value: nat)
    requires
        value <= u128::MAX,
        holds_at(bytes, at, le_bytes(value, 16)),
    ensures
        u128_le(bytes, at) == value,
{
    let written = le_bytes(value, 16);
    lemma_sixteen_bytes_round_trip(value);
    assert forall|k: int| 0 <= k < 16 implies bytes[at + k] == #[trigger] written[k] by {
        assert(bytes.subrange(at, at + 16)[k] == bytes[at + k]);
    }
    assert(bytes[at] == written[0]);
    assert(bytes[at + 8] == written[8]);
}

/// A written byte string is read back wherever it stands.
pub proof fn lemma_field_at(bytes: Seq<u8>, at: int, field: Seq<u8>)
    requires
        field.len() <= u32::MAX,
        holds_at(bytes, at, field_bytes(field)),
    ensures
        bytes_at(bytes, at) == Some((field, at + field_bytes(field).len())),
        field_bytes(field).len() == 4 + field.len(),
{
    lemma_le_bytes_len(field.len(), 4);
    lemma_holds_split(bytes, at, le_bytes(field.len(), 4), field);
    lemma_four_bytes_at(bytes, at, field.len());
}

/// A written combinator is read back wherever it stands.
pub proof fn lemma_combinator_at(bytes: Seq<u8>, at: int, combinator: Option<Combinator>)
    requires
        holds_at(bytes, at, combinator_bytes(combinator)),
    ensures
        combinator_at(bytes, at) == Some((combinator, at + combinator_bytes(combinator).len())),
{
    let written = combinator_bytes(combinator);
    assert forall|k: int| 0 <= k < written.len() implies bytes[at + k] == #[trigger] written[k] by {
        assert(bytes.subrange(at, at + written.len())[k] == bytes[at + k]);
    }
    assert(bytes[at] == written[0]);
    if combinator.is_some() {
        assert(bytes[at + 1] == written[1]);
        assert(bytes[at + 2] == written[2]);
    }
}

/// A written promise is read back wherever it stands.
pub proof fn lemma_promise_at(bytes: Seq<u8>, at: int, p: PromiseView)
    requires
        promise_fits(p),
        is_method_name(p.method),
        holds_at(bytes, at, promise_bytes(p)),
    ensures
        promise_at(bytes, at) == Some((p, at + promise_bytes(p).len())),
{
    let f2 = field_bytes(p.target);
    let f3 = field_bytes(p.method);
    let f4 = field_bytes(p.payload);
    let n1 = le_bytes(p.compute_cost as nat, 16);
    let n2 = le_bytes(p.value_cost as nat, 16);
    let c = combinator_bytes(p.combinator);
    lemma_le_bytes_len(p.compute_cost as nat, 16);
    lemma_le_bytes_len(p.value_cost as nat, 16);
    lemma_holds_split(bytes, at, f2 + f3 + f4 + n1 + n2, c);
    lemma_holds_split(bytes, at, f2 + f3 + f4 + n1, n2);
    lemma_holds_split(bytes, at, f2 + f3 + f4, n1);
    lemma_holds_split(bytes, at, f2 + f3, f4);
    lemma_holds_split(bytes, at, f2, f3);
    lemma_field_at(bytes, at, p.target);
    let a2 = at + f2.len();
    lemma_field_at(bytes, a2, p.method);
    let a3 = a2 + f3.len();
    lemma_field_at(bytes, a3, p.payload);
    let a4 = a3 + f4.len();
    lemma_sixteen_bytes_at(bytes, a4, p.compute_cost as nat);
    lemma_sixteen_bytes_at(bytes, a4 + 16, p.value_cost as nat);
    lemma_combinator_at(bytes, a4 + 32, p.combinator);
}

/// A written stored promise is read back wherever it stands.
pub proof fn lemma_output_at(bytes: Seq<u8>, at: int, output: PromiseOutputView)
    requires
        output_fits(output),
        is_method_name(output.promise.method),
        holds_at(bytes, at, output_bytes(output)),
    ensures
        output_at(bytes, at) == Some((output, at + output_bytes(output).len())),
{
    lemma_holds_split(bytes, at, field_bytes(output.sender), promise_bytes(output.promise));
    lemma_field_at(bytes, at, output.sender);
    lemma_promise_at(bytes, at + field_bytes(output.sender).len(), output.promise);
}

/// Written promises are read back wherever they stand, one behind the
/// other.
pub proof fn lemma_promises_at(bytes: Seq<u8>, at: int, promises: Seq<PromiseView>)
    requires
        forall|i: int| 0 <= i < promises.len() ==> promise_fits(#[trigger] promises[i]),
        forall|i: int| 0 <= i < promises.len() ==> is_method_name((#[trigger] promises[i]).method),
        holds_at(bytes, at, promises_bytes(promises)),
    ensures
        promises_at(bytes, at, promises.len()) == Some(
            (promises, at + promises_bytes(promises).len()),
        ),
    decreases promises.len(),
{
    if promises.len() == 0 {
        assert(promises =~= Seq::<PromiseView>::empty());
    } else {
        let front = promises.drop_last();
        lemma_holds_split(bytes, at, promises_bytes(front), promise_bytes(promises.last()));
        assert forall|i: int| 0 <= i < front.len() implies promise_fits(#[trigger] front[i]) by {
            assert(front[i] == promises[i]);
        }
        assert forall|i: int| 0 <= i < front.len() implies is_method_name(
            (#[trigger] front[i]).method,
        ) by {
            assert(front[i] == promises[i]);
        }
        lemma_promises_at(bytes, at, front);
        lemma_promise_at(bytes, at + promises_bytes(front).len(), promises.last());
        assert(front.push(promises.last()) =~= promises);
    }
}

/// The input written for a schedule addresses the schedule.
pub proof fn law_schedule_call_addresses_schedule(promises: Seq<PromiseView>)
    ensures
        schedule_call_bytes(promises).len() >= 8,
        entry_point_of(schedule_call_bytes(promises)) == Some(EntryPoint::Schedule),
{
    let bytes = schedule_call_bytes(promises);
    lemma_le_bytes_len(promises.len(), 4);
    assert(bytes[0] == 0xb0u8 && bytes[1] == 0x60u8 && bytes[2] == 0x4au8 && bytes[3] == 0x26u8);
}

/// Reading the input written for a schedule gives the promises back,
/// whenever they can be written and every method name among them follows
/// the grammar.
pub proof fn law_schedule_call_round_trip(promises: Seq<PromiseView>)
    requires
        schedule_call_fits(promises),
        forall|i: int| 0 <= i < promises.len() ==> is_method_name((#[trigger] promises[i]).method),
    ensures
        schedule_call_of(schedule_call_bytes(promises)) == Some(promises),
{
    let bytes = schedule_call_bytes(promises);
    let selector = seq![0xb0u8, 0x60u8, 0x4au8, 0x26u8];
    let count = le_bytes(promises.len(), 4);
    lemma_le_bytes_len(promises.len(), 4);
    assert(bytes.subrange(0, bytes.len() as int) =~= bytes);
    lemma_holds_split(bytes, 0, selector + count, promises_bytes(promises));
    lemma_holds_split(bytes, 0, selector, count);
    lemma_four_bytes_at(bytes, 4, promises.len());
    law_schedule_call_addresses_schedule(promises);
    lemma_promises_at(bytes, 8, promises);
}

/// Written promises are read back wherever they stand.
pub proof fn lemma_outputs_at(bytes: Seq<u8>, at: int, batch: Seq<PromiseOutputView>)
    requires
        forall|i: int| 0 <= i < batch.len() ==> output_fits(#[trigger] batch[i]),
        batch_named(batch),
        holds_at(bytes, at, outputs_bytes(batch)),
    ensures
        outputs_at(bytes, at, batch.len()) == Some((batch, at + outputs_bytes(batch).len())),
    decreases batch.len(),
{
    if batch.len() == 0 {
        assert(batch =~= Seq::<PromiseOutputView>::empty());
    } else {
        let front = batch.drop_last();
        lemma_holds_split(bytes, at, outputs_bytes(front), output_bytes(batch.last()));
        assert forall|i: int| 0 <= i < front.len() implies output_fits(#[trigger] front[i]) by {
            assert(front[i] == batch[i]);
        }
        assert forall|i: int| 0 <= i < front.len() implies is_method_name(
            (#[trigger] front[i]).promise.method,
        ) by {
            assert(front[i] == batch[i]);
        }
        lemma_outputs_at(bytes, at, front);
        lemma_output_at(bytes, at + outputs_bytes(front).len(), batch.last());
        assert(front.push(batch.last()) =~= batch);
    }
}

/// A written outcome is read back wherever it stands.
pub proof fn lemma_outcome_at(bytes: Seq<u8>, at: int, outcome: Option<Seq<PromiseOutputView>>)
    requires
        outcome_fits(outcome),
        outcome.is_some() ==> batch_named(outcome.unwrap()),
        holds_at(bytes, at, outcome_bytes(outcome)),
    ensures
        outcome_at(bytes, at) == Some((outcome, at + outcome_bytes(outcome).len())),
{
    let written = outcome_bytes(outcome);
    assert(bytes.subrange(at, at + written.len())[0] == bytes[at]);
    match outcome {
        None => {},
        Some(batch) => {
            let count = le_bytes(batch.len(), 4);
            lemma_le_bytes_len(batch.len(), 4);
            lemma_holds_split(bytes, at, seq![1u8] + count, outputs_bytes(batch));
            lemma_holds_split(bytes, at, seq![1u8], count);
            lemma_four_bytes_at(bytes, at + 1, batch.len());
            lemma_outputs_at(bytes, at + 5, batch);
        },
    }
}

/// Written outcomes are read back wherever they stand.
pub proof fn lemma_outcomes_at(
    bytes: Seq<u8>,
    at: int,
    outcomes: Seq<Option<Seq<PromiseOutputView>>>,
)
    requires
        forall|i: int| 0 <= i < outcomes.len() ==> outcome_fits(#[trigger] outcomes[i]),
        outcomes_named(outcomes),
        holds_at(bytes, at, outcomes_bytes(outcomes)),
    ensures
        outcomes_at(bytes, at, outcomes.len()) == Some(
            (outcomes, at + outcomes_bytes(outcomes).len()),
        ),
    decreases outcomes.len(),
{
    if outcomes.len() == 0 {
        assert(outcomes =~= Seq::<Option<Seq<PromiseOutputView>>>::empty());
    } else {
        let front = outcomes.drop_last();
        lemma_holds_split(bytes, at, outcomes_bytes(front), outcome_bytes(outcomes.last()));
        assert forall|i: int| 0 <= i < front.len() implies outcome_fits(#[trigger] front[i]) by {
            assert(front[i] == outcomes[i]);
        }
        assert(outcomes_named(front)) by {
            assert forall|i: int| 0 <= i < front.len() implies match #[trigger] front[i] {
                Some(batch) => batch_named(batch),
                None => true,
            } by {
                assert(front[i] == outcomes[i]);
            }
        }
        lemma_outcomes_at(bytes, at, front);
        assert(outcomes.last() == outcomes[outcomes.len() - 1]);
        lemma_outcome_at(bytes, at + outcomes_bytes(front).len(), outcomes.last());
        assert(front.push(outcomes.last()) =~= outcomes);
    }
}

/// Reading the bytes written for the outcomes of a pull gives the outcomes
/// back, whenever they can be written and every method name among them
/// follows the grammar.
pub proof fn law_pull_result_round_trip(outcomes: Seq<Option<Seq<PromiseOutputView>>>)
    requires
        pull_result_fits(outcomes),
        outcomes_named(outcomes),
    ensures
        pull_result_of(pull_result_bytes(outcomes)) == Some(outcomes),
{
    let bytes = pull_result_bytes(outcomes);
    let count = le_bytes(outcomes.len(), 4);
    lemma_le_bytes_len(outcomes.len(), 4);
    assert(bytes.subrange(0, bytes.len() as int) =~= bytes);
    lemma_holds_split(bytes, 0, count, outcomes_bytes(outcomes));
    lemma_four_bytes_at(bytes, 0, outcomes.len());
    lemma_outcomes_at(bytes, 4, outcomes);
}

} // verus!
