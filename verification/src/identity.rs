//! Tensor identities and the allocator that issues them.

use vstd::prelude::*;

verus! {

/// The identity of a tensor: a token that tells it apart from every other
/// tensor that the same allocator has named.
#[derive(Clone, Copy, Debug, PartialEq, Eq, Structural, Hash)]
pub struct Identity {
    token: u64,
}

impl View for Identity {
    type V = u64;

    /// The token as a number.
    closed spec fn view(&self) -> u64 {
        self.token
    }
}

impl Identity {
    /// No two identities share a token.
    pub proof fn lemma_token_decides_all()
        ensures
            forall|a: Identity, b: Identity| (#[trigger] a@ == #[trigger] b@) <==> a == b,
    {
    }

    /// The token as a number.
    pub fn token(&self) -> (r: u64)
        ensures
            r == self@,
    {
        self.token
    }
}

/// Issues identities, each one once.
pub struct IdAllocator {
    next: u64,
}

impl IdAllocator {
    /// How many identities were issued so far.
    pub closed spec fn issued(self) -> nat {
        self.next as nat
    }

    /// Whether `id` is one of the identities issued so far.
    pub open spec fn has_issued(self, id: Identity) -> bool {
        (id@ as nat) < self.issued()
    }

    /// The identity that the next call of `next_id` returns.
    pub closed spec fn upcoming(self) -> Identity {
        Identity { token: self.next }
    }

    /// The identity to come was not issued yet.
    pub proof fn lemma_upcoming_is_new(self)
        ensures
            !self.has_issued(self.upcoming()),
            self.upcoming()@ == self.issued(),
    {
    }

    /// An allocator that has issued nothing.
    pub fn new() -> (r: IdAllocator)
        ensures
            r.issued() == 0,
    {
        IdAllocator { next: 0 }
    }

    /// Whether another identity can be issued.
    pub fn has_next(&self) -> (r: bool)
        ensures
            r == (self.issued() < u64::MAX),
    {
        self.next < u64::MAX
    }

    /// The identity that the next call of `next_id` returns.
    pub fn peek(&self) -> (r: Identity)
        ensures
            r == self.upcoming(),
    {
        Identity { token: self.next }
    }

    /// A new identity: one that this allocator has never returned before.
    pub fn next_id(&mut self) -> (r: Identity)
        requires
            old(self).issued() < u64::MAX,
        ensures
            r == old(self).upcoming(),
            !old(self).has_issued(r),
            final(self).issued() == old(self).issued() + 1,
            forall|id: Identity| final(self).has_issued(id) <==> old(self).has_issued(id) || id == r,
    {
        let token: u64 = self.next;
        self.next = self.next + 1;
        Identity { token }
    }
}

} // verus!
