use vstd::prelude::*;

verus! {

/// Hands out object ids: 1, 2, 3, ... in order.
#[derive(Debug)]
pub struct UidCounter {
    next: u64,
}

impl UidCounter {
    /// The id that the next call of `next_uid` hands out.
    pub closed spec fn peek(&self) -> u64 {
        self.next
    }

    pub fn new() -> (r: Self)
        ensures
            r.peek() == 1,
    {
        UidCounter { next: 1 }
    }

    /// Hands out the current id and advances the counter by one (wrapping).
    pub fn next_uid(&mut self) -> (r: u64)
        ensures
            r == old(self).peek(),
            final(self).peek() == (if old(self).peek() == u64::MAX { 0 } else { (old(self).peek() + 1) as u64 }),
    {
        let r = self.next;
        self.next = self.next.wrapping_add(1);
        r
    }
}

} // verus!
