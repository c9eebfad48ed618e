//! Live search: each keystroke starts a search, and answers can arrive out
//! of order. Every search gets the next sequence number, and only the
//! answer of the latest search is shown; an older one is dropped.
use vstd::prelude::*;

verus! {

/// The sequence numbers of the searches issued so far.
pub struct LiveSearch {
    latest: u64,
}

impl View for LiveSearch {
    type V = nat;

    closed spec fn view(&self) -> nat {
        self.latest as nat
    }
}

impl LiveSearch {
    /// No search issued yet.
    pub fn new() -> (r: Self)
        ensures
            r@ == 0,
    {
        LiveSearch { latest: 0 }
    }

    /// The number of the latest search (0 before the first).
    pub fn latest(&self) -> (r: u64)
        ensures
            r == self@,
    {
        self.latest
    }

    /// Starts a search: its number is one more than the last one.
    pub fn issue(&mut self) -> (r: u64)
        requires
            old(self)@ < u64::MAX,
        ensures
            r == old(self)@ + 1,
            final(self)@ == r,
    {
        self.latest = self.latest + 1;
        self.latest
    }

    /// Whether the answer of search `seq` is to be shown: only that of the
    /// latest search.
    pub fn accept(&self, seq: u64) -> (r: bool)
        ensures
            r == (seq == self@),
    {
        seq == self.latest
    }
}

} // verus!
