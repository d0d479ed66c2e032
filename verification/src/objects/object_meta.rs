use vstd::prelude::*;
use crate::objects::labels::StringMap;

verus! {

/// Metadata of an object: its labels, its unique id, and (for pods) the id of
/// the group it was created from.
#[derive(Debug)]
pub struct ObjectMeta {
    pub labels: StringMap,
    pub uid: u64,
    pub group_uid: u64,
}

impl Clone for ObjectMeta {
    fn clone(&self) -> (r: Self)
        ensures
            r.labels@ == self.labels@,
            r.uid == self.uid,
            r.group_uid == self.group_uid,
    {
        ObjectMeta { labels: self.labels.clone(), uid: self.uid, group_uid: self.group_uid }
    }
}

impl ObjectMeta {
    pub fn new() -> (r: Self)
        ensures
            r.labels.entries().len() == 0,
            r.labels.wf(),
            r.uid == 0,
            r.group_uid == 0,
    {
        ObjectMeta { labels: StringMap::new(), uid: 0, group_uid: 0 }
    }
}

} // verus!
