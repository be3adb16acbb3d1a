//! What an older catalog may lack, and when an answer to that may be kept.

use vstd::prelude::*;

verus! {

/// Optional parts of a catalog, probed before queries that depend on them.
pub trait Capabilities: Sized + Copy {
    /// Whether the catalog has every optional part.
    spec fn has_all(self) -> bool;

    /// Whether the catalog has every optional part.
    fn all(&self) -> (all: bool)
        ensures
            all == self.has_all(),
    ;
}

/// The answer of a probe, kept once it can no longer change.
///
/// A catalog gains parts and never loses one, so an answer that lists all of
/// them stays true. Any other answer is forgotten, and the next query probes
/// again.
pub struct CapabilityMemo<C: Capabilities> {
    known: Option<C>,
}

impl<C: Capabilities> CapabilityMemo<C> {
    /// What is known of the catalog.
    pub closed spec fn view(self) -> Option<C> {
        self.known
    }

    /// Only an answer that lists everything is kept.
    pub open spec fn wf(self) -> bool {
        self@ matches Some(capabilities) ==> capabilities.has_all()
    }

    /// Nothing is known yet.
    pub fn new() -> (memo: Self)
        ensures
            memo@ is None,
            memo.wf(),
    {
        CapabilityMemo { known: None }
    }

    /// Whether an answer is kept.
    pub fn is_cached(&self) -> (cached: bool)
        ensures
            cached == self@ is Some,
    {
        self.known.is_some()
    }

    /// The answer that is kept, if any.
    pub fn recall(&self) -> (known: Option<C>)
        ensures
            known == self@,
    {
        self.known
    }

    /// Takes the answer of a probe: keeps it if it lists everything and none is
    /// kept yet.
    pub fn learn(&mut self, probed: C)
        requires
            old(self).wf(),
        ensures
            final(self).wf(),
            final(self)@ == if old(self)@ is Some {
                old(self)@
            } else if probed.has_all() {
                Some(probed)
            } else {
                None
            },
    {
        if self.known.is_none() && probed.all() {
            self.known = Some(probed);
        }
    }
}

} // verus!
