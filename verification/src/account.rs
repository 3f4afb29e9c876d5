//! Account identifiers and the byte-string helpers the other modules share.

use vstd::prelude::*;

verus! {

/// Copies a byte string.
pub fn copy_bytes(src: &Vec<u8>) -> (out: Vec<u8>)
    ensures
        out@ == src@,
{
    let mut out: Vec<u8> = Vec::new();
    let mut i: usize = 0;
    while i < src.len()
        invariant
            i <= src.len(),
            out@ == src@.take(i as int),
        decreases src.len() - i,
    {
        out.push(src[i]);
        i += 1;
    }
    out
}

/// Appends `src` to `out`.
pub fn append_bytes(out: &mut Vec<u8>, src: &Vec<u8>)
    ensures
        final(out)@ == old(out)@ + src@,
{
    let mut i: usize = 0;
    while i < src.len()
        invariant
            i <= src.len(),
            out@ == old(out)@ + src@.take(i as int),
        decreases src.len() - i,
    {
        out.push(src[i]);
        assert(src@.take(i + 1) == src@.take(i as int).push(src@[i as int]));
        i += 1;
    }
    assert(src@.take(src@.len() as int) == src@);
}

/// Tells whether two byte strings hold the same bytes.
pub fn same_bytes(a: &Vec<u8>, b: &Vec<u8>) -> (same: bool)
    ensures
        same == (a@ == b@),
{
    if a.len() != b.len() {
        return false;
    }
    let mut i: usize = 0;
    while i < a.len()
        invariant
            i <= a.len(),
            a.len() == b.len(),
            a@.take(i as int) == b@.take(i as int),
        decreases a.len() - i,
    {
        if a[i] != b[i] {
            return false;
        }
        assert(a@.take(i + 1) == a@.take(i as int).push(a@[i as int]));
        assert(b@.take(i + 1) == b@.take(i as int).push(b@[i as int]));
        i += 1;
    }
    assert(a@.take(a.len() as int) == a@);
    assert(b@.take(b.len() as int) == b@);
    true
}

/// The name of an account on the host ledger. Its view is the name's bytes.
#[derive(Clone, Debug, PartialEq, Eq)]
pub struct AccountId {
    pub bytes: Vec<u8>,
}

impl View for AccountId {
    type V = Seq<u8>;

    open spec fn view(&self) -> Seq<u8> {
        self.bytes@
    }
}

impl AccountId {
    pub fn new(bytes: Vec<u8>) -> (id: AccountId)
        ensures
            id@ == bytes@,
    {
        AccountId { bytes }
    }

    /// A second identifier with the same bytes.
    pub fn duplicate(&self) -> (id: AccountId)
        ensures
            id@ == self@,
    {
        AccountId { bytes: copy_bytes(&self.bytes) }
    }

    /// Whether both identifiers name the same account.
    pub fn same_as(&self, other: &AccountId) -> (same: bool)
        ensures
            same == (self@ == other@),
    {
        same_bytes(&self.bytes, &other.bytes)
    }
}

} // verus!
