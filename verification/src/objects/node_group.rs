use vstd::prelude::*;
use crate::objects::node::{Node, NodeView};
use crate::objects::uid::UidCounter;

verus! {

/// A number of identical nodes, as a cluster configuration lists them.
#[derive(Debug)]
pub struct NodeGroup {
    pub group_uid: u64,
    pub amount: u64,
    pub node: Node,
}

impl NodeGroup {
    /// Gives the group the next group uid and marks its node as a member.
    pub fn prepare(&mut self, uids: &mut UidCounter)
        ensures
            final(self).group_uid == old(uids).peek(),
            final(self).amount == old(self).amount,
            final(self).node@ == (NodeView { group_uid: old(uids).peek(), ..old(self).node@ }),
            final(uids).peek() == (if old(uids).peek() == u64::MAX { 0 } else { (old(uids).peek() + 1) as u64 }),
    {
        let g = uids.next_uid();
        self.group_uid = g;
        self.node.metadata.group_uid = g;
    }
}

} // verus!
