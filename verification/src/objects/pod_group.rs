use vstd::prelude::*;
use crate::objects::pod::Pod;
use crate::objects::uid::UidCounter;

verus! {

/// A number of identical pods to submit.
#[derive(Debug)]
pub struct PodGroup {
    pub group_uid: u64,
    pub amount: u64,
    pub pod: Pod,
}

impl PodGroup {
    /// Gives the group the next group uid.
    pub fn prepare(&mut self, uids: &mut UidCounter)
        ensures
            final(self).group_uid == old(uids).peek(),
            final(self).amount == old(self).amount,
            final(self).pod@ == old(self).pod@,
            final(uids).peek() == (if old(uids).peek() == u64::MAX { 0 } else { (old(uids).peek() + 1) as u64 }),
    {
        self.group_uid = uids.next_uid();
    }
}

} // verus!
