//! The byte layout of promises, as a schedule takes them and as a pull
//! returns them: every variable-size field behind its length in four bytes,
//! every number little-endian, the fields in the order in which they are
//! declared.

use vstd::prelude::*;
use crate::account::append_bytes;
use crate::account::AccountId;
use crate::promise::batch_view;
use crate::promise::is_method_name;
use crate::promise::outcome_view;
use crate::promise::outcomes_view;
use crate::promise::promises_view;
use crate::promise::Combinator;
use crate::promise::CombinatorMode;
use crate::promise::Method;
use crate::promise::Promise;
use crate::promise::PromiseOutput;
use crate::promise::PromiseOutputView;
use crate::promise::PromiseView;
use crate::wire::entry_point;
use crate::wire::entry_point_of;
use crate::wire::le_bytes;
use crate::wire::EntryPoint;
use crate::wire::read_u128;
use crate::wire::write_le;
use crate::wire::read_u32;
use crate::wire::u128_le;
use crate::wire::u32_le;

verus! {

/// A length-prefixed byte string at `at`: the string, and where the bytes
/// behind it begin.
pub open spec fn bytes_at(bytes: Seq<u8>, at: int) -> Option<(Seq<u8>, int)> {
    if 0 <= at && at + 4 <= bytes.len() && at + 4 + u32_le(bytes, at) <= bytes.len() {
        Some(
            (bytes.subrange(at + 4, at + 4 + u32_le(bytes, at)), at + 4 + u32_le(bytes, at)),
        )
    } else {
        None
    }
}

/// An optional combinator at `at`: a zero byte for none; or a one, the mode
/// in one byte, zero for `Then` and one for `And`, and the position referred
/// to in one byte.
pub open spec fn combinator_at(bytes: Seq<u8>, at: int) -> Option<(Option<Combinator>, int)> {
    if at < 0 || at + 1 > bytes.len() {
        None
    } else if bytes[at] == 0 {
        Some((None, at + 1))
    } else if bytes[at] == 1 && at + 3 <= bytes.len() && bytes[at + 1] <= 1 {
        Some(
            (
                Some(
                    Combinator {
                        mode: if bytes[at + 1] == 0 {
                            CombinatorMode::Then
                        } else {
                            CombinatorMode::And
                        },
                        ref_index: bytes[at + 2],
                    },
                ),
                at + 3,
            ),
        )
    } else {
        None
    }
}

/// A promise at `at`: target, method, payload, the two costs in sixteen
/// bytes each, and the optional combinator. The method must follow the
/// grammar of method names.
pub open spec fn promise_at(bytes: Seq<u8>, at: int) -> Option<(PromiseView, int)> {
    match bytes_at(bytes, at) {
        None => None,
        Some((target, after_target)) => match bytes_at(bytes, after_target) {
            None => None,
            Some((method, after_method)) => match bytes_at(bytes, after_method) {
                None => None,
                Some((payload, after_payload)) => if !is_method_name(method) || after_payload
                    + 32 > bytes.len() {
                    None
                } else {
                    match combinator_at(bytes, after_payload + 32) {
                        None => None,
                        Some((combinator, next)) => Some(
                            (
                                PromiseView {
                                    target,
                                    method,
                                    payload,
                                    compute_cost: u128_le(bytes, after_payload) as u128,
                                    value_cost: u128_le(bytes, after_payload + 16) as u128,
                                    combinator,
                                },
                                next,
                            ),
                        ),
                    }
                },
            },
        },
    }
}

/// `count` promises from `at` on, one behind the other.
pub open spec fn promises_at(bytes: Seq<u8>, at: int, count: nat) -> Option<
    (Seq<PromiseView>, int),
>
    decreases count,
{
    if count == 0 {
        Some((Seq::empty(), at))
    } else {
        match promises_at(bytes, at, (count - 1) as nat) {
            None => None,
            Some((front, last_at)) => match promise_at(bytes, last_at) {
                None => None,
                Some((last, next)) => Some((front.push(last), next)),
            },
        }
    }
}

/// What the input of a call to `schedule` says: the selector, the count of
/// the promises in four bytes, then the promises, and nothing behind them.
pub open spec fn schedule_call_of(input: Seq<u8>) -> Option<Seq<PromiseView>> {
    if input.len() < 8 || entry_point_of(input) != Some(EntryPoint::Schedule) {
        None
    } else {
        match promises_at(input, 8, u32_le(input, 4)) {
            None => None,
            Some((promises, end)) => if end == input.len() {
                Some(promises)
            } else {
                None
            },
        }
    }
}

/// Where the first promises cannot be read, more of them cannot either.
pub proof fn lemma_promises_fail_on(bytes: Seq<u8>, at: int, n: nat, m: nat)
    requires
        n <= m,
        promises_at(bytes, at, n).is_none(),
    ensures
        promises_at(bytes, at, m).is_none(),
    decreases m,
{
    if n < m {
        lemma_promises_fail_on(bytes, at, n, (m - 1) as nat);
    }
}

/// A stored promise at `at`: the sender, then the promise.
pub open spec fn output_at(bytes: Seq<u8>, at: int) -> Option<(PromiseOutputView, int)> {
    match bytes_at(bytes, at) {
        None => None,
        Some((sender, after_sender)) => match promise_at(bytes, after_sender) {
            None => None,
            Some((promise, next)) => Some((PromiseOutputView { sender, promise }, next)),
        },
    }
}

/// `count` stored promises from `at` on, one behind the other.
pub open spec fn outputs_at(bytes: Seq<u8>, at: int, count: nat) -> Option<
    (Seq<PromiseOutputView>, int),
>
    decreases count,
{
    if count == 0 {
        Some((Seq::empty(), at))
    } else {
        match outputs_at(bytes, at, (count - 1) as nat) {
            None => None,
            Some((front, last_at)) => match output_at(bytes, last_at) {
                None => None,
                Some((last, next)) => Some((front.push(last), next)),
            },
        }
    }
}

/// The outcome of one request at `at`: a zero byte where nothing was found;
/// or a one, the count of the batch's promises in four bytes, and the
/// promises.
pub open spec fn outcome_at(bytes: Seq<u8>, at: int) -> Option<
    (Option<Seq<PromiseOutputView>>, int),
> {
    if at < 0 || at + 1 > bytes.len() {
        None
    } else if bytes[at] == 0 {
        Some((None, at + 1))
    } else if bytes[at] == 1 && at + 5 <= bytes.len() {
        match outputs_at(bytes, at + 5, u32_le(bytes, at + 1)) {
            None => None,
            Some((batch, next)) => Some((Some(batch), next)),
        }
    } else {
        None
    }
}

/// `count` outcomes from `at` on, one behind the other.
pub open spec fn outcomes_at(bytes: Seq<u8>, at: int, count: nat) -> Option<
    (Seq<Option<Seq<PromiseOutputView>>>, int),
>
    decreases count,
{
    if count == 0 {
        Some((Seq::empty(), at))
    } else {
        match outcomes_at(bytes, at, (count - 1) as nat) {
            None => None,
            Some((front, last_at)) => match outcome_at(bytes, last_at) {
                None => None,
                Some((last, next)) => Some((front.push(last), next)),
            },
        }
    }
}

/// What the bytes that a pull returned say: the count of the outcomes in
/// four bytes, then the outcomes, and nothing behind them.
pub open spec fn pull_result_of(bytes: Seq<u8>) -> Option<Seq<Option<Seq<PromiseOutputView>>>> {
    if bytes.len() < 4 {
        None
    } else {
        match outcomes_at(bytes, 4, u32_le(bytes, 0)) {
            None => None,
            Some((outcomes, end)) => if end == bytes.len() {
                Some(outcomes)
            } else {
                None
            },
        }
    }
}

/// Where the first promises cannot be read, more of them cannot either.
pub proof fn lemma_outputs_fail_on(bytes: Seq<u8>, at: int, n: nat, m: nat)
    requires
        n <= m,
        outputs_at(bytes, at, n).is_none(),
    ensures
        outputs_at(bytes, at, m).is_none(),
    decreases m,
{
    if n < m {
        lemma_outputs_fail_on(bytes, at, n, (m - 1) as nat);
    }
}

/// Where the first outcomes cannot be read, more of them cannot either.
pub proof fn lemma_outcomes_fail_on(bytes: Seq<u8>, at: int, n: nat, m: nat)
    requires
        n <= m,
        outcomes_at(bytes, at, n).is_none(),
    ensures
        outcomes_at(bytes, at, m).is_none(),
    decreases m,
{
    if n < m {
        lemma_outcomes_fail_on(bytes, at, n, (m - 1) as nat);
    }
}

/// Reads a length-prefixed byte string.
fn read_bytes(bytes: &Vec<u8>, at: usize) -> (read: Option<(Vec<u8>, usize)>)
    requires
        at <= bytes.len(),
    ensures
        match read {
            Some((field, next)) => bytes_at(bytes@, at as int) == Some((field@, next as int))
                && next <= bytes.len(),
            None => bytes_at(bytes@, at as int).is_none(),
        },
{
    if bytes.len() - at < 4 {
        return None;
    }
    let length: usize = read_u32(bytes, at) as usize;
    if bytes.len() - at - 4 < length {
        return None;
    }
    let start: usize = at + 4;
    let mut field: Vec<u8> = Vec::new();
    let mut i: usize = 0;
    while i < length
        invariant
            i <= length,
            start + length <= bytes.len(),
            field@ == bytes@.subrange(start as int, start + i),
        decreases length - i,
    {
        field.push(bytes[start + i]);
        assert(bytes@.subrange(start as int, start + i + 1) == bytes@.subrange(
            start as int,
            start + i,
        ).push(bytes@[start + i]));
        i += 1;
    }
    Some((field, start + length))
}

/// Reads an optional combinator.
fn read_combinator(bytes: &Vec<u8>, at: usize) -> (read: Option<(Option<Combinator>, usize)>)
    requires
        at <= bytes.len(),
    ensures
        match read {
            Some((combinator, next)) => combinator_at(bytes@, at as int) == Some(
                (combinator, next as int),
            ) && next <= bytes.len(),
            None => combinator_at(bytes@, at as int).is_none(),
        },
{
    if bytes.len() - at < 1 {
        return None;
    }
    if bytes[at] == 0 {
        return Some((None, at + 1));
    }
    if bytes[at] != 1 || bytes.len() - at < 3 || bytes[at + 1] > 1 {
        return None;
    }
    let mode = if bytes[at + 1] == 0 {
        CombinatorMode::Then
    } else {
        CombinatorMode::And
    };
    Some((Some(Combinator { mode, ref_index: bytes[at + 2] }), at + 3))
}

/// Reads a promise.
fn read_promise(bytes: &Vec<u8>, at: usize) -> (read: Option<(Promise, usize)>)
    requires
        at <= bytes.len(),
    ensures
        match read {
            Some((promise, next)) => promise_at(bytes@, at as int) == Some(
                (promise@, next as int),
            ) && next <= bytes.len(),
            None => promise_at(bytes@, at as int).is_none(),
        },
{
    let (target, after_target) = match read_bytes(bytes, at) {
        Some(read) => read,
        None => {
            return None;
        },
    };
    let (name, after_method) = match read_bytes(bytes, after_target) {
        Some(read) => read,
        None => {
            return None;
        },
    };
    let (payload, after_payload) = match read_bytes(bytes, after_method) {
        Some(read) => read,
        None => {
            return None;
        },
    };
    let method = match Method::new(name) {
        Ok(method) => method,
        Err(_) => {
            return None;
        },
    };
    if bytes.len() - after_payload < 32 {
        return None;
    }
    let compute_cost = read_u128(bytes, after_payload);
    let value_cost = read_u128(bytes, after_payload + 16);
    let (combinator, next) = match read_combinator(bytes, after_payload + 32) {
        Some(read) => read,
        None => {
            return None;
        },
    };
    let promise = Promise {
        target: AccountId::new(target),
        method,
        payload,
        compute_cost,
        value_cost,
        combinator,
    };
    Some((promise, next))
}

/// Reads a stored promise.
fn read_output(bytes: &Vec<u8>, at: usize) -> (read: Option<(PromiseOutput, usize)>)
    requires
        at <= bytes.len(),
    ensures
        match read {
            Some((output, next)) => output_at(bytes@, at as int) == Some((output@, next as int))
                && next <= bytes.len(),
            None => output_at(bytes@, at as int).is_none(),
        },
{
    let (sender, after_sender) = match read_bytes(bytes, at) {
        Some(read) => read,
        None => {
            return None;
        },
    };
    match read_promise(bytes, after_sender) {
        Some((promise, next)) => Some(
            (PromiseOutput { sender: AccountId::new(sender), promise }, next),
        ),
        None => None,
    }
}

/// Reads `count` stored promises.
fn read_outputs(bytes: &Vec<u8>, at: usize, count: u32) -> (read: Option<
    (Vec<PromiseOutput>, usize),
>)
    requires
        at <= bytes.len(),
    ensures
        match read {
            Some((batch, next)) => outputs_at(bytes@, at as int, count as nat) == Some(
                (batch_view(batch@), next as int),
            ) && next <= bytes.len(),
            None => outputs_at(bytes@, at as int, count as nat).is_none(),
        },
{
    let mut batch: Vec<PromiseOutput> = Vec::new();
    let mut cursor: usize = at;
    let mut i: u32 = 0;
    assert(batch_view(batch@) =~= Seq::<PromiseOutputView>::empty());
    while i < count
        invariant
            i <= count,
            cursor <= bytes.len(),
            outputs_at(bytes@, at as int, i as nat) == Some((batch_view(batch@), cursor as int)),
        decreases count - i,
    {
        let ghost front = batch@;
        match read_output(bytes, cursor) {
            Some((output, next)) => {
                batch.push(output);
                cursor = next;
                assert(batch_view(batch@) =~= batch_view(front).push(output@));
            },
            None => {
                proof {
                    lemma_outputs_fail_on(bytes@, at as int, (i + 1) as nat, count as nat);
                }
                return None;
            },
        }
        i += 1;
    }
    Some((batch, cursor))
}

/// Reads the outcome of one request.
fn read_outcome(bytes: &Vec<u8>, at: usize) -> (read: Option<(Option<Vec<PromiseOutput>>, usize)>)
    requires
        at <= bytes.len(),
    ensures
        match read {
            Some((outcome, next)) => outcome_at(bytes@, at as int) == Some(
                (outcome_view(outcome), next as int),
            ) && next <= bytes.len(),
            None => outcome_at(bytes@, at as int).is_none(),
        },
{
    if bytes.len() - at < 1 {
        return None;
    }
    if bytes[at] == 0 {
        return Some((None, at + 1));
    }
    if bytes[at] != 1 || bytes.len() - at < 5 {
        return None;
    }
    let count = read_u32(bytes, at + 1);
    match read_outputs(bytes, at + 5, count) {
        Some((batch, next)) => Some((Some(batch), next)),
        None => None,
    }
}

/// Reads the input of a call to `schedule`: the promises handed in, or
/// `None` where the input is no such call.
pub fn parse_schedule_call(input: &Vec<u8>) -> (parsed: Option<Vec<Promise>>)
    ensures
        match parsed {
            Some(promises) => schedule_call_of(input@) == Some(promises_view(promises@)),
            None => schedule_call_of(input@).is_none(),
        },
{
    if input.len() < 8 {
        return None;
    }
    match entry_point(input) {
        Some(EntryPoint::Schedule) => {},
        _ => {
            return None;
        },
    }
    let count = read_u32(input, 4);
    let mut promises: Vec<Promise> = Vec::new();
    let mut cursor: usize = 8;
    let mut i: u32 = 0;
    assert(promises_view(promises@) =~= Seq::<PromiseView>::empty());
    while i < count
        invariant
            i <= count,
            8 <= cursor <= input.len(),
            count == u32_le(input@, 4),
            promises_at(input@, 8, i as nat) == Some((promises_view(promises@), cursor as int)),
        decreases count - i,
    {
        let ghost front = promises@;
        match read_promise(input, cursor) {
            Some((promise, next)) => {
                promises.push(promise);
                cursor = next;
                assert(promises_view(promises@) =~= promises_view(front).push(promise@));
            },
            None => {
                proof {
                    lemma_promises_fail_on(input@, 8, (i + 1) as nat, count as nat);
                }
                return None;
            },
        }
        i += 1;
    }
    if cursor != input.len() {
        return None;
    }
    Some(promises)
}

/// Reads what a pull returned: one outcome per request, or `None` where the
/// bytes are not the outcomes of a pull and nothing else.
pub fn parse_pull_result(bytes: &Vec<u8>) -> (parsed: Option<Vec<Option<Vec<PromiseOutput>>>>)
    ensures
        match parsed {
            Some(outcomes) => pull_result_of(bytes@) == Some(outcomes_view(outcomes@)),
            None => pull_result_of(bytes@).is_none(),
        },
{
    if bytes.len() < 4 {
        return None;
    }
    let count = read_u32(bytes, 0);
    let mut outcomes: Vec<Option<Vec<PromiseOutput>>> = Vec::new();
    let mut cursor: usize = 4;
    let mut i: u32 = 0;
    assert(outcomes_view(outcomes@) =~= Seq::<Option<Seq<PromiseOutputView>>>::empty());
    while i < count
        invariant
            i <= count,
            4 <= cursor <= bytes.len(),
            count == u32_le(bytes@, 0),
            outcomes_at(bytes@, 4, i as nat) == Some((outcomes_view(outcomes@), cursor as int)),
        decreases count - i,
    {
        let ghost front = outcomes@;
        match read_outcome(bytes, cursor) {
            Some((outcome, next)) => {
                let ghost said = outcome_view(outcome);
                outcomes.push(outcome);
                cursor = next;
                assert(outcomes_view(outcomes@) =~= outcomes_view(front).push(said));
            },
            None => {
                proof {
                    lemma_outcomes_fail_on(bytes@, 4, (i + 1) as nat, count as nat);
                }
                return None;
            },
        }
        i += 1;
    }
    if cursor != bytes.len() {
        return None;
    }
    Some(outcomes)
}

/// A byte string behind its length.
pub open spec fn field_bytes(field: Seq<u8>) -> Seq<u8> {
    le_bytes(field.len(), 4) + field
}

/// An optional combinator as bytes.
pub open spec fn combinator_bytes(combinator: Option<Combinator>) -> Seq<u8> {
    match combinator {
        None => seq![0u8],
        Some(c) => seq![
            1u8,
            match c.mode {
                CombinatorMode::Then => 0u8,
                CombinatorMode::And => 1u8,
            },
            c.ref_index,
        ],
    }
}

/// A promise as bytes.
pub open spec fn promise_bytes(promise: PromiseView) -> Seq<u8> {
    field_bytes(promise.target) + field_bytes(promise.method) + field_bytes(promise.payload)
        + le_bytes(promise.compute_cost as nat, 16) + le_bytes(promise.value_cost as nat, 16)
        + combinator_bytes(promise.combinator)
}

/// Promises as bytes, one behind the other.
pub open spec fn promises_bytes(promises: Seq<PromiseView>) -> Seq<u8>
    decreases promises.len(),
{
    if promises.len() == 0 {
        Seq::empty()
    } else {
        promises_bytes(promises.drop_last()) + promise_bytes(promises.last())
    }
}

/// The input of a call to `schedule`, as bytes.
pub open spec fn schedule_call_bytes(promises: Seq<PromiseView>) -> Seq<u8> {
    seq![0xb0u8, 0x60u8, 0x4au8, 0x26u8] + le_bytes(promises.len(), 4) + promises_bytes(promises)
}

/// A stored promise as bytes.
pub open spec fn output_bytes(output: PromiseOutputView) -> Seq<u8> {
    field_bytes(output.sender) + promise_bytes(output.promise)
}

/// Stored promises as bytes, one behind the other.
pub open spec fn outputs_bytes(batch: Seq<PromiseOutputView>) -> Seq<u8>
    decreases batch.len(),
{
    if batch.len() == 0 {
        Seq::empty()
    } else {
        outputs_bytes(batch.drop_last()) + output_bytes(batch.last())
    }
}

/// The outcome of one request as bytes.
pub open spec fn outcome_bytes(outcome: Option<Seq<PromiseOutputView>>) -> Seq<u8> {
    match outcome {
        None => seq![0u8],
        Some(batch) => seq![1u8] + le_bytes(batch.len(), 4) + outputs_bytes(batch),
    }
}

/// Outcomes as bytes, one behind the other.
pub open spec fn outcomes_bytes(outcomes: Seq<Option<Seq<PromiseOutputView>>>) -> Seq<u8>
    decreases outcomes.len(),
{
    if outcomes.len() == 0 {
        Seq::empty()
    } else {
        outcomes_bytes(outcomes.drop_last()) + outcome_bytes(outcomes.last())
    }
}

/// What a pull returns, as bytes.
pub open spec fn pull_result_bytes(outcomes: Seq<Option<Seq<PromiseOutputView>>>) -> Seq<u8> {
    le_bytes(outcomes.len(), 4) + outcomes_bytes(outcomes)
}

/// Every variable-size field of the promise has a length that four bytes
/// can hold.
pub open spec fn promise_fits(promise: PromiseView) -> bool {
    &&& promise.target.len() <= u32::MAX
    &&& promise.method.len() <= u32::MAX
    &&& promise.payload.len() <= u32::MAX
}

/// The promises can be written: their count fits four bytes and each of
/// them fits.
pub open spec fn schedule_call_fits(promises: Seq<PromiseView>) -> bool {
    promises.len() <= u32::MAX && forall|i: int|
        0 <= i < promises.len() ==> promise_fits(#[trigger] promises[i])
}

/// Every variable-size field of the stored promise has a length that four
/// bytes can hold.
pub open spec fn output_fits(output: PromiseOutputView) -> bool {
    output.sender.len() <= u32::MAX && promise_fits(output.promise)
}

/// The outcome can be written: the batch, if there is one, has a count
/// that four bytes can hold, and each of its promises fits.
pub open spec fn outcome_fits(outcome: Option<Seq<PromiseOutputView>>) -> bool {
    match outcome {
        None => true,
        Some(batch) => batch.len() <= u32::MAX && forall|i: int|
            0 <= i < batch.len() ==> output_fits(#[trigger] batch[i]),
    }
}

/// The outcomes can be written: their count fits four bytes and each of
/// them can be written.
pub open spec fn pull_result_fits(outcomes: Seq<Option<Seq<PromiseOutputView>>>) -> bool {
    outcomes.len() <= u32::MAX && forall|i: int|
        0 <= i < outcomes.len() ==> outcome_fits(#[trigger] outcomes[i])
}

/// Appends a byte string behind its length.
fn write_field(out: &mut Vec<u8>, field: &Vec<u8>)
    requires
        field@.len() <= u32::MAX,
    ensures
        final(out)@ == old(out)@ + field_bytes(field@),
{
    write_le(out, field.len() as u128, 4);
    append_bytes(out, field);
    assert(old(out)@ + le_bytes(field@.len(), 4) + field@ =~= old(out)@ + field_bytes(field@));
}

/// Appends a promise, or reports that it does not fit.
fn write_promise(out: &mut Vec<u8>, promise: &Promise) -> (written: bool)
    ensures
        written == promise_fits(promise@),
        written ==> final(out)@ == old(out)@ + promise_bytes(promise@),
{
    let method = promise.method.as_bytes();
    if promise.target.bytes.len() > 0xffff_ffff || method.len() > 0xffff_ffff
        || promise.payload.len() > 0xffff_ffff {
        return false;
    }
    write_field(out, &promise.target.bytes);
    write_field(out, method);
    write_field(out, &promise.payload);
    write_le(out, promise.compute_cost, 16);
    write_le(out, promise.value_cost, 16);
    let ghost before = out@;
    match promise.combinator {
        None => {
            out.push(0u8);
            assert(out@ =~= before + seq![0u8]);
        },
        Some(c) => {
            out.push(1u8);
            let mode: u8 = match c.mode {
                CombinatorMode::Then => 0u8,
                CombinatorMode::And => 1u8,
            };
            out.push(mode);
            out.push(c.ref_index);
            assert(out@ =~= before + seq![1u8, mode, c.ref_index]);
        },
    }
    assert(out@ =~= old(out)@ + promise_bytes(promise@));
    true
}

/// Appends a stored promise, or reports that it does not fit.
fn write_output(out: &mut Vec<u8>, output: &PromiseOutput) -> (written: bool)
    ensures
        written == output_fits(output@),
        written ==> final(out)@ == old(out)@ + output_bytes(output@),
{
    if output.sender.bytes.len() > 0xffff_ffff {
        return false;
    }
    write_field(out, &output.sender.bytes);
    let written = write_promise(out, &output.promise);
    assert(written ==> out@ =~= old(out)@ + output_bytes(output@));
    written
}

/// The input of a call that schedules `promises`, or `None` where their
/// count or a length among them is more than four bytes can hold.
pub fn encode_schedule_call(promises: &Vec<Promise>) -> (bytes: Option<Vec<u8>>)
    ensures
        match bytes {
            Some(b) => schedule_call_fits(promises_view(promises@)) && b@ == schedule_call_bytes(
                promises_view(promises@),
            ),
            None => !schedule_call_fits(promises_view(promises@)),
        },
{
    if promises.len() > 0xffff_ffff {
        return None;
    }
    let ghost said = promises_view(promises@);
    let mut out: Vec<u8> = Vec::new();
    out.push(0xb0u8);
    out.push(0x60u8);
    out.push(0x4au8);
    out.push(0x26u8);
    assert(out@ =~= seq![0xb0u8, 0x60u8, 0x4au8, 0x26u8]);
    write_le(&mut out, promises.len() as u128, 4);
    let ghost head = out@;
    let mut i: usize = 0;
    assert(head + promises_bytes(said.take(0)) =~= head);
    while i < promises.len()
        invariant
            i <= promises.len(),
            said == promises_view(promises@),
            head == seq![0xb0u8, 0x60u8, 0x4au8, 0x26u8] + le_bytes(said.len(), 4),
            out@ == head + promises_bytes(said.take(i as int)),
            forall|j: int| 0 <= j < i ==> promise_fits(#[trigger] said[j]),
        decreases promises.len() - i,
    {
        if !write_promise(&mut out, &promises[i]) {
            assert(!promise_fits(said[i as int]));
            return None;
        }
        proof {
            let now = said.take(i + 1);
            assert(now.drop_last() =~= said.take(i as int));
            assert(now.last() == promises@[i as int]@);
        }
        i += 1;
    }
    proof {
        assert(said.take(promises@.len() as int) =~= said);
    }
    Some(out)
}

/// Appends the outcome of one request, or reports that it does not fit.
fn write_outcome(out: &mut Vec<u8>, outcome: &Option<Vec<PromiseOutput>>) -> (written: bool)
    ensures
        written == outcome_fits(outcome_view(*outcome)),
        written ==> final(out)@ == old(out)@ + outcome_bytes(outcome_view(*outcome)),
{
    match outcome {
        None => {
            out.push(0u8);
            assert(out@ =~= old(out)@ + seq![0u8]);
            true
        },
        Some(batch) => {
            if batch.len() > 0xffff_ffff {
                return false;
            }
            out.push(1u8);
            write_le(out, batch.len() as u128, 4);
            let ghost head = out@;
            let ghost said = batch_view(batch@);
            let mut i: usize = 0;
            assert(head + outputs_bytes(said.take(0)) =~= head);
            while i < batch.len()
                invariant
                    i <= batch.len(),
                    said == batch_view(batch@),
                    outcome_view(*outcome) == Some(said),
                    out@ == head + outputs_bytes(said.take(i as int)),
                    forall|j: int| 0 <= j < i ==> output_fits(#[trigger] said[j]),
                decreases batch.len() - i,
            {
                if !write_output(out, &batch[i]) {
                    assert(!output_fits(said[i as int]));
                    return false;
                }
                proof {
                    let now = said.take(i + 1);
                    assert(now.drop_last() =~= said.take(i as int));
                    assert(now.last() == batch@[i as int]@);
                }
                i += 1;
            }
            proof {
                assert(said.take(batch@.len() as int) =~= said);
                assert(out@ =~= old(out)@ + (seq![1u8] + le_bytes(said.len(), 4) + outputs_bytes(
                    said,
                )));
            }
            true
        },
    }
}

/// What a pull returns, as bytes, or `None` where a count or a length among
/// the outcomes is more than four bytes can hold.
pub fn encode_pull_result(outcomes: &Vec<Option<Vec<PromiseOutput>>>) -> (bytes: Option<Vec<u8>>)
    ensures
        match bytes {
            Some(b) => pull_result_fits(outcomes_view(outcomes@)) && b@ == pull_result_bytes(
                outcomes_view(outcomes@),
            ),
            None => !pull_result_fits(outcomes_view(outcomes@)),
        },
{
    if outcomes.len() > 0xffff_ffff {
        return None;
    }
    let ghost said = outcomes_view(outcomes@);
    let mut out: Vec<u8> = Vec::new();
    write_le(&mut out, outcomes.len() as u128, 4);
    let ghost head = out@;
    let mut i: usize = 0;
    assert(head + outcomes_bytes(said.take(0)) =~= head);
    while i < outcomes.len()
        invariant
            i <= outcomes.len(),
            said == outcomes_view(outcomes@),
            head == Seq::<u8>::empty() + le_bytes(said.len(), 4),
            out@ == head + outcomes_bytes(said.take(i as int)),
            forall|j: int| 0 <= j < i ==> outcome_fits(#[trigger] said[j]),
        decreases outcomes.len() - i,
    {
        if !write_outcome(&mut out, &outcomes[i]) {
            assert(!outcome_fits(said[i as int]));
            return None;
        }
        proof {
            let now = said.take(i + 1);
            assert(now.drop_last() =~= said.take(i as int));
            assert(now.last() == outcome_view(outcomes@[i as int]));
        }
        i += 1;
    }
    proof {
        assert(said.take(outcomes@.len() as int) =~= said);
        assert(out@ =~= pull_result_bytes(said));
    }
    Some(out)
}

} // verus!
