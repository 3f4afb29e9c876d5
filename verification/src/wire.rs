//! Bytes at the router's boundary: the four-byte selectors that tell its
//! two entry points apart, and the layout in which the engine reports the
//! indices it has given out: a count in four bytes, then each index in
//! eight, all little-endian.

use vstd::prelude::*;
use crate::budget::ResourceBudget;

verus! {

/// An entry point of the router.
#[derive(Clone, Copy, Debug, PartialEq, Eq, Structural)]
pub enum EntryPoint {
    Schedule,
    Pull,
}

/// The selector of `schedule`.
pub const SCHEDULE_SELECTOR: u32 = 0xb060_4a26;

/// The selector of `pull`.
pub const PULL_SELECTOR: u32 = 0x329e_b839;

/// The selector that an input begins with: its first four bytes, read as
/// one number with the first byte highest.
pub open spec fn selector_of(input: Seq<u8>) -> nat {
    (input[0] * 0x100_0000 + input[1] * 0x1_0000 + input[2] * 0x100 + input[3]) as nat
}

/// The entry point that an input addresses, if any.
pub open spec fn entry_point_of(input: Seq<u8>) -> Option<EntryPoint> {
    if input.len() < 4 {
        None
    } else if selector_of(input) == SCHEDULE_SELECTOR {
        Some(EntryPoint::Schedule)
    } else if selector_of(input) == PULL_SELECTOR {
        Some(EntryPoint::Pull)
    } else {
        None
    }
}

/// Tells which entry point an input addresses: `None` where it is shorter
/// than a selector or begins with another one.
pub fn entry_point(input: &Vec<u8>) -> (addressed: Option<EntryPoint>)
    ensures
        addressed == entry_point_of(input@),
{
    if input.len() < 4 {
        return None;
    }
    let s0: u32 = input[0] as u32;
    let s1: u32 = input[1] as u32;
    let s2: u32 = input[2] as u32;
    let s3: u32 = input[3] as u32;
    let selector: u32 = s0 * 0x100_0000 + s1 * 0x1_0000 + s2 * 0x100 + s3;
    if selector == SCHEDULE_SELECTOR {
        Some(EntryPoint::Schedule)
    } else if selector == PULL_SELECTOR {
        Some(EntryPoint::Pull)
    } else {
        None
    }
}

/// The number that the four bytes from `at` on spell, lowest byte first.
pub open spec fn u32_le(bytes: Seq<u8>, at: int) -> nat {
    (bytes[at] + bytes[at + 1] * 0x100 + bytes[at + 2] * 0x1_0000 + bytes[at + 3]
        * 0x100_0000) as nat
}

/// The number that the eight bytes from `at` on spell, lowest byte first.
pub open spec fn u64_le(bytes: Seq<u8>, at: int) -> nat {
    (bytes[at] + bytes[at + 1] * 0x100 + bytes[at + 2] * 0x1_0000 + bytes[at + 3] * 0x100_0000
        + bytes[at + 4] * 0x1_0000_0000 + bytes[at + 5] * 0x100_0000_0000 + bytes[at + 6]
        * 0x1_0000_0000_0000 + bytes[at + 7] * 0x100_0000_0000_0000) as nat
}

/// The bytes are a count followed by exactly that many indices.
pub open spec fn is_index_list(bytes: Seq<u8>) -> bool {
    bytes.len() >= 4 && bytes.len() == 4 + 8 * u32_le(bytes, 0)
}

/// The indices that a well-formed list holds, in order.
pub open spec fn listed_indexes(bytes: Seq<u8>) -> Seq<u64> {
    Seq::new(u32_le(bytes, 0), |i: int| u64_le(bytes, 4 + 8 * i) as u64)
}

/// Reads the four bytes from `at` on as one number.
pub(crate) fn read_u32(bytes: &Vec<u8>, at: usize) -> (value: u32)
    requires
        at + 4 <= bytes.len(),
    ensures
        value == u32_le(bytes@, at as int),
{
    let b0: u32 = bytes[at] as u32;
    let b1: u32 = bytes[at + 1] as u32;
    let b2: u32 = bytes[at + 2] as u32;
    let b3: u32 = bytes[at + 3] as u32;
    b0 + b1 * 0x100 + b2 * 0x1_0000 + b3 * 0x100_0000
}

/// Reads the eight bytes from `at` on as one number.
fn read_u64(bytes: &Vec<u8>, at: usize) -> (value: u64)
    requires
        at + 8 <= bytes.len(),
    ensures
        value == u64_le(bytes@, at as int),
{
    let b0: u64 = bytes[at] as u64;
    let b1: u64 = bytes[at + 1] as u64;
    let b2: u64 = bytes[at + 2] as u64;
    let b3: u64 = bytes[at + 3] as u64;
    let b4: u64 = bytes[at + 4] as u64;
    let b5: u64 = bytes[at + 5] as u64;
    let b6: u64 = bytes[at + 6] as u64;
    let b7: u64 = bytes[at + 7] as u64;
    b0 + b1 * 0x100 + b2 * 0x1_0000 + b3 * 0x100_0000 + b4 * 0x1_0000_0000 + b5
        * 0x100_0000_0000 + b6 * 0x1_0000_0000_0000 + b7 * 0x100_0000_0000_0000
}

/// The number that the sixteen bytes from `at` on spell, lowest byte first.
pub open spec fn u128_le(bytes: Seq<u8>, at: int) -> nat {
    u64_le(bytes, at) + u64_le(bytes, at + 8) * 0x1_0000_0000_0000_0000
}

/// The input is a call to `pull`: the selector, a list of indices, and the
/// thirty-two bytes of a budget, with nothing between or behind them.
pub open spec fn is_pull_call(input: Seq<u8>) -> bool {
    &&& input.len() >= 36
    &&& entry_point_of(input) == Some(EntryPoint::Pull)
    &&& is_index_list(input.subrange(4, input.len() - 32))
}

/// The indices that a call to `pull` asks for.
pub open spec fn pull_call_indexes(input: Seq<u8>) -> Seq<u64> {
    listed_indexes(input.subrange(4, input.len() - 32))
}

/// The budget that a call to `pull` declares.
pub open spec fn pull_call_budget(input: Seq<u8>) -> ResourceBudget {
    ResourceBudget {
        compute: u128_le(input, input.len() - 32) as u128,
        value: u128_le(input, input.len() - 16) as u128,
    }
}

/// Reads the sixteen bytes from `at` on as one number.
pub(crate) fn read_u128(bytes: &Vec<u8>, at: usize) -> (value: u128)
    requires
        at + 16 <= bytes.len(),
    ensures
        value == u128_le(bytes@, at as int),
{
    let low: u128 = read_u64(bytes, at) as u128;
    let high: u128 = read_u64(bytes, at + 8) as u128;
    low + high * 0x1_0000_0000_0000_0000
}

/// Reads the bytes from `from` up to `to` as a list of indices.
fn read_index_list(bytes: &Vec<u8>, from: usize, to: usize) -> (parsed: Option<Vec<u64>>)
    requires
        from <= to <= bytes.len(),
    ensures
        match parsed {
            Some(indexes) => is_index_list(bytes@.subrange(from as int, to as int)) && indexes@
                == listed_indexes(bytes@.subrange(from as int, to as int)),
            None => !is_index_list(bytes@.subrange(from as int, to as int)),
        },
{
    let ghost list = bytes@.subrange(from as int, to as int);
    if to - from < 4 {
        return None;
    }
    let c0: u64 = bytes[from] as u64;
    let c1: u64 = bytes[from + 1] as u64;
    let c2: u64 = bytes[from + 2] as u64;
    let c3: u64 = bytes[from + 3] as u64;
    let count: u64 = c0 + c1 * 0x100 + c2 * 0x1_0000 + c3 * 0x100_0000;
    assert(count == u32_le(list, 0));
    if (to - from) as u64 != 4 + 8 * count {
        return None;
    }
    let mut indexes: Vec<u64> = Vec::new();
    let mut i: usize = 0;
    while (i as u64) < count
        invariant
            i <= count,
            from <= to <= bytes.len(),
            list == bytes@.subrange(from as int, to as int),
            count == u32_le(list, 0),
            to - from == 4 + 8 * count,
            indexes@.len() == i,
            forall|j: int| 0 <= j < i ==> #[trigger] indexes@[j] == u64_le(list, 4 + 8 * j),
        decreases count - i,
    {
        let value = read_u64(bytes, from + 4 + 8 * i);
        assert(u64_le(bytes@, from + 4 + 8 * i) == u64_le(list, 4 + 8 * i));
        indexes.push(value);
        i += 1;
    }
    assert(indexes@ =~= listed_indexes(list));
    Some(indexes)
}

/// Reads a list of indices: `None` unless the bytes are a count followed by
/// exactly that many indices.
pub fn parse_promise_indexes(bytes: &Vec<u8>) -> (parsed: Option<Vec<u64>>)
    ensures
        match parsed {
            Some(indexes) => is_index_list(bytes@) && indexes@ == listed_indexes(bytes@),
            None => !is_index_list(bytes@),
        },
{
    assert(bytes@.subrange(0, bytes@.len() as int) =~= bytes@);
    read_index_list(bytes, 0, bytes.len())
}

/// Reads the input of a call to `pull`: the indices asked for and the
/// budget declared, or `None` where the input is no such call.
pub fn parse_pull_call(input: &Vec<u8>) -> (parsed: Option<(Vec<u64>, ResourceBudget)>)
    ensures
        match parsed {
            Some((indexes, total)) => {
                &&& is_pull_call(input@)
                &&& indexes@ == pull_call_indexes(input@)
                &&& total == pull_call_budget(input@)
            },
            None => !is_pull_call(input@),
        },
{
    if input.len() < 36 {
        return None;
    }
    match entry_point(input) {
        Some(EntryPoint::Pull) => {},
        _ => {
            return None;
        },
    }
    let end: usize = input.len() - 32;
    match read_index_list(input, 4, end) {
        Some(indexes) => {
            let compute = read_u128(input, end);
            let value = read_u128(input, end + 16);
            Some((indexes, ResourceBudget { compute, value }))
        },
        None => None,
    }
}

/// The lowest `width` bytes of `value`, lowest first.
pub open spec fn le_bytes(value: nat, width: nat) -> Seq<u8>
    decreases width,
{
    if width == 0 {
        Seq::empty()
    } else {
        seq![(value % 256) as u8] + le_bytes(value / 256, (width - 1) as nat)
    }
}

/// The indices, each in eight bytes, one after the other.
pub open spec fn indexes_bytes(indexes: Seq<u64>) -> Seq<u8>
    decreases indexes.len(),
{
    if indexes.len() == 0 {
        Seq::empty()
    } else {
        indexes_bytes(indexes.drop_last()) + le_bytes(indexes.last() as nat, 8)
    }
}

/// A list of indices as bytes: the count, then the indices.
pub open spec fn index_list_bytes(indexes: Seq<u64>) -> Seq<u8> {
    le_bytes(indexes.len(), 4) + indexes_bytes(indexes)
}

/// The input of a call to `pull`: its selector, the indices asked for, and
/// the declared budget, compute before value, in sixteen bytes each.
pub open spec fn pull_call_bytes(indexes: Seq<u64>, total: ResourceBudget) -> Seq<u8> {
    seq![0x32u8, 0x9eu8, 0xb8u8, 0x39u8] + index_list_bytes(indexes) + le_bytes(
        total.compute as nat,
        16,
    ) + le_bytes(total.value as nat, 16)
}

/// Appends the lowest `width` bytes of `value` to `out`, lowest first.
pub(crate) fn write_le(out: &mut Vec<u8>, value: u128, width: usize)
    ensures
        final(out)@ == old(out)@ + le_bytes(value as nat, width as nat),
{
    let mut rest: u128 = value;
    let mut k: usize = 0;
    while k < width
        invariant
            k <= width,
            out@ + le_bytes(rest as nat, (width - k) as nat) == old(out)@ + le_bytes(
                value as nat,
                width as nat,
            ),
        decreases width - k,
    {
        let ghost before = out@;
        let ghost tail = le_bytes(rest as nat / 256, (width - k - 1) as nat);
        let low: u8 = (rest % 256) as u8;
        out.push(low);
        proof {
            assert(le_bytes(rest as nat, (width - k) as nat) == seq![low] + tail);
            assert(before.push(low) + tail =~= before + (seq![low] + tail));
        }
        rest = rest / 256;
        k += 1;
    }
    assert(out@ + le_bytes(rest as nat, 0) =~= out@);
}

/// Appends a list of indices to `out`.
fn write_index_list(out: &mut Vec<u8>, indexes: &Vec<u64>)
    requires
        indexes@.len() <= u32::MAX,
    ensures
        final(out)@ == old(out)@ + index_list_bytes(indexes@),
{
    write_le(out, indexes.len() as u128, 4);
    let ghost head = out@;
    let mut i: usize = 0;
    assert(head + indexes_bytes(indexes@.take(0)) =~= head);
    while i < indexes.len()
        invariant
            i <= indexes.len(),
            head == old(out)@ + le_bytes(indexes@.len(), 4),
            out@ == head + indexes_bytes(indexes@.take(i as int)),
        decreases indexes.len() - i,
    {
        let ghost before = indexes@.take(i as int);
        write_le(out, indexes[i] as u128, 8);
        proof {
            let now = indexes@.take(i + 1);
            assert(now.drop_last() =~= before);
            assert(now.last() == indexes@[i as int]);
            assert(head + indexes_bytes(before) + le_bytes(indexes@[i as int] as nat, 8) =~= head
                + indexes_bytes(now));
        }
        i += 1;
    }
    proof {
        assert(indexes@.take(indexes@.len() as int) =~= indexes@);
        assert(old(out)@ + le_bytes(indexes@.len(), 4) + indexes_bytes(indexes@) =~= old(out)@
            + index_list_bytes(indexes@));
    }
}

/// The index that a schedule returns, in eight bytes.
pub fn encode_index(index: u64) -> (bytes: Vec<u8>)
    ensures
        bytes@ == le_bytes(index as nat, 8),
{
    let mut out: Vec<u8> = Vec::new();
    write_le(&mut out, index as u128, 8);
    assert(Seq::<u8>::empty() + le_bytes(index as nat, 8) =~= le_bytes(index as nat, 8));
    out
}

/// The bytes of a list of indices, or `None` where their count does not
/// fit the four bytes it is written in.
pub fn encode_promise_indexes(indexes: &Vec<u64>) -> (bytes: Option<Vec<u8>>)
    ensures
        match bytes {
            Some(b) => indexes@.len() <= u32::MAX && b@ == index_list_bytes(indexes@),
            None => indexes@.len() > u32::MAX,
        },
{
    if indexes.len() > 0xffff_ffff {
        return None;
    }
    let mut out: Vec<u8> = Vec::new();
    write_index_list(&mut out, indexes);
    assert(Seq::<u8>::empty() + index_list_bytes(indexes@) =~= index_list_bytes(indexes@));
    Some(out)
}

/// The input of a call that pulls `indexes` against `total`, or `None`
/// where the count of the indices does not fit the four bytes it is written
/// in.
pub fn encode_pull_call(indexes: &Vec<u64>, total: ResourceBudget) -> (bytes: Option<Vec<u8>>)
    ensures
        match bytes {
            Some(b) => indexes@.len() <= u32::MAX && b@ == pull_call_bytes(indexes@, total),
            None => indexes@.len() > u32::MAX,
        },
{
    if indexes.len() > 0xffff_ffff {
        return None;
    }
    let mut out: Vec<u8> = Vec::new();
    out.push(0x32u8);
    out.push(0x9eu8);
    out.push(0xb8u8);
    out.push(0x39u8);
    assert(out@ =~= seq![0x32u8, 0x9eu8, 0xb8u8, 0x39u8]);
    write_index_list(&mut out, indexes);
    write_le(&mut out, total.compute, 16);
    write_le(&mut out, total.value, 16);
    Some(out)
}

} // verus!
