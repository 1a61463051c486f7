//! The sequence numbers of requests.
use vstd::prelude::*;

verus! {

/// The number that is given after `n`. After the last one the numbers start
/// over at zero.
pub open spec fn following(n: u64) -> u64 {
    if n == u64::MAX {
        0
    } else {
        (n + 1) as u64
    }
}

/// The number that is next once `count` numbers, the first of them `n`, have
/// been given.
pub open spec fn after(n: u64, count: nat) -> u64
    decreases count,
{
    if count == 0 {
        n
    } else {
        following(after(n, (count - 1) as nat))
    }
}

/// Gives each request a number of its own.
#[derive(Debug, PartialEq, Eq)]
pub struct RequestIds {
    next: u64,
}

impl View for RequestIds {
    type V = u64;

    /// The number that is given next.
    closed spec fn view(&self) -> u64 {
        self.next
    }
}

impl RequestIds {
    /// Numbers that start at one.
    pub fn new() -> (ids: Self)
        ensures
            ids@ == 1,
    {
        RequestIds { next: 1 }
    }

    /// Gives the next number.
    pub fn assign(&mut self) -> (id: u64)
        ensures
            id == old(self)@,
            final(self)@ == following(old(self)@),
    {
        let id: u64 = self.next;
        self.next = if id == u64::MAX {
            0
        } else {
            id + 1
        };
        id
    }
}

proof fn lemma_after_counts(n: u64, count: nat)
    ensures
        after(n, count) == (n + count) % 0x1_0000_0000_0000_0000,
    decreases count,
{
    if count > 0 {
        lemma_after_counts(n, (count - 1) as nat);
    }
}

/// Of two numbers, the later is greater than the earlier by one more than the
/// numbers between them, as long as the last number has not been passed.
pub proof fn law_numbers_grow(earlier: u64, between: nat)
    requires
        earlier + 1 + between <= u64::MAX,
    ensures
        after(following(earlier), between) == earlier + 1 + between,
        after(following(earlier), between) > earlier,
{
    lemma_after_counts(following(earlier), between);
}

/// Two numbers differ, even past the last one, unless all the others have
/// been given between them.
pub proof fn law_numbers_differ(earlier: u64, between: nat)
    requires
        between < u64::MAX,
    ensures
        after(following(earlier), between) != earlier,
{
    lemma_after_counts(following(earlier), between);
}

} // verus!
