//! Combinator resolution: how each call of a batch is chained to the call
//! issued for an earlier position of the same batch.

use vstd::prelude::*;
use crate::promise::output_references_valid;
use crate::promise::refers_backward;
use crate::promise::Combinator;
use crate::promise::CombinatorMode;
use crate::promise::PromiseOutput;
use crate::promise::ValidationError;

verus! {

/// How a call is issued with respect to the calls issued before it for the
/// same batch. A position is a place in the batch: the calls are issued in
/// the order of the batch, so the call of an earlier position exists by the
/// time a later one refers to it.
#[derive(Clone, Copy, Debug, PartialEq, Eq, Structural)]
pub enum ChainLink {
    /// Issued on its own.
    Independent,
    /// Issued as a continuation of the call at this position.
    After(usize),
    /// Issued on its own, and reported together with the call at this
    /// position.
    JoinedWith(usize),
}

/// The link that a combinator asks for.
pub open spec fn link_of(combinator: Option<Combinator>) -> ChainLink {
    match combinator {
        None => ChainLink::Independent,
        Some(c) => match c.mode {
            CombinatorMode::Then => ChainLink::After(c.ref_index as usize),
            CombinatorMode::And => ChainLink::JoinedWith(c.ref_index as usize),
        },
    }
}

/// The link, if it refers to a position, refers to one before `position`.
pub open spec fn link_backward(link: ChainLink, position: int) -> bool {
    match link {
        ChainLink::Independent => true,
        ChainLink::After(earlier) => earlier < position,
        ChainLink::JoinedWith(earlier) => earlier < position,
    }
}

/// `links` are the links of `batch`, position by position.
pub open spec fn links_of(links: Seq<ChainLink>, batch: Seq<PromiseOutput>) -> bool {
    &&& links.len() == batch.len()
    &&& forall|i: int|
        0 <= i < batch.len() ==> #[trigger] links[i] == link_of(batch[i].promise.combinator)
}

/// Where every combinator of a batch refers backward, so does every link:
/// issuing the calls from left to right respects every dependency, whatever
/// the fan-out.
pub proof fn lemma_links_backward(links: Seq<ChainLink>, batch: Seq<PromiseOutput>)
    requires
        links_of(links, batch),
        output_references_valid(batch),
    ensures
        forall|i: int| 0 <= i < links.len() ==> link_backward(#[trigger] links[i], i),
{
    assert forall|i: int| 0 <= i < links.len() implies link_backward(#[trigger] links[i], i) by {
        assert(refers_backward(batch[i].promise.combinator, i));
    }
}

/// Resolves the combinators of a batch into one link per position, or
/// refuses the batch where a combinator does not refer to a strictly
/// earlier position.
pub fn resolve(batch: &Vec<PromiseOutput>) -> (resolved: Result<Vec<ChainLink>, ValidationError>)
    ensures
        match resolved {
            Ok(links) => {
                &&& output_references_valid(batch@)
                &&& links_of(links@, batch@)
                &&& forall|i: int| 0 <= i < links@.len() ==> link_backward(#[trigger] links@[i], i)
            },
            Err(e) => !output_references_valid(batch@) && e == ValidationError::BadReference,
        },
{
    let mut links: Vec<ChainLink> = Vec::new();
    let mut i: usize = 0;
    while i < batch.len()
        invariant
            i <= batch.len(),
            links@.len() == i,
            forall|j: int|
                0 <= j < i ==> refers_backward(#[trigger] batch@[j].promise.combinator, j),
            forall|j: int|
                0 <= j < i ==> #[trigger] links@[j] == link_of(batch@[j].promise.combinator),
        decreases batch.len() - i,
    {
        let link = match batch[i].promise.combinator {
            None => ChainLink::Independent,
            Some(c) => {
                let earlier: usize = c.ref_index as usize;
                if earlier >= i {
                    assert(!refers_backward(batch@[i as int].promise.combinator, i as int));
                    return Err(ValidationError::BadReference);
                }
                match c.mode {
                    CombinatorMode::Then => ChainLink::After(earlier),
                    CombinatorMode::And => ChainLink::JoinedWith(earlier),
                }
            },
        };
        links.push(link);
        i += 1;
    }
    proof {
        lemma_links_backward(links@, batch@);
    }
    Ok(links)
}

} // verus!
