use vstd::prelude::*;
use std::collections::HashMap;
use vstd::multiset::Multiset;
use crate::objects::node::{Node, NodeView};

verus! {

broadcast use vstd::seq_lib::group_to_multiset_ensures;

/// Resources of an indexed node stay below this bound (2^62). Inserting
/// into the r-tree computes areas of boxes, sums of a few areas and squared
/// distances between box centres on `i128` coordinates; below the bound none
/// of them overflows.
pub const INDEX_LIMIT: u64 = 0x4000_0000_0000_0000u64;

/// An r-tree of points `(available cpu, available memory)`, each carrying
/// a node uid, answering which nodes have at least given resources.
#[verifier::external_body]
pub struct NodePointIndex {
    tree: rstar::RTree<rstar::primitives::GeomWithData<[i128; 2], u64>>,
}

/// The points an index holds, as `(cpu, memory, uid)`, with their
/// multiplicities.
pub uninterp spec fn indexed_points(index: &NodePointIndex) -> Multiset<(u64, u64, u64)>;

/// The point has at least `cpu` and `memory`.
pub open spec fn point_at_least(p: (u64, u64, u64), cpu: u64, memory: u64) -> bool {
    p.0 >= cpu && p.1 >= memory
}

/// Calls `rstar::RTree::new`, which makes an empty tree.
#[verifier::external_body]
fn index_new() -> (r: NodePointIndex)
    ensures
        indexed_points(&r) == Multiset::<(u64, u64, u64)>::empty(),
{
    NodePointIndex { tree: rstar::RTree::new() }
}

/// Calls `rstar::RTree::insert`, which adds the element (a second time if it
/// is there already). The insertion does arithmetic on the coordinates (see
/// `INDEX_LIMIT`), so they must lie below the limit; nothing is claimed of
/// the tree's inner shape.
#[verifier::external_body]
fn index_insert(index: &mut NodePointIndex, p: (u64, u64, u64))
    requires
        p.0 < INDEX_LIMIT,
        p.1 < INDEX_LIMIT,
    ensures
        indexed_points(final(index)) == indexed_points(old(index)).insert(p),
{
    index.tree.insert(rstar::primitives::GeomWithData::new([p.0 as i128, p.1 as i128], p.2))
}

/// Calls `rstar::RTree::remove`, which removes one element equal to the given
/// one and tells whether there was one.
#[verifier::external_body]
fn index_remove(index: &mut NodePointIndex, p: (u64, u64, u64)) -> (r: bool)
    ensures
        r == (indexed_points(old(index)).count(p) > 0),
        indexed_points(final(index)) == indexed_points(old(index)).remove(p),
{
    index.tree.remove(&rstar::primitives::GeomWithData::new([p.0 as i128, p.1 as i128], p.2)).is_some()
}

/// Calls `rstar::RTree::locate_in_envelope` with the box from `(cpu, memory)`
/// to the largest point, which yields every element inside the box,
/// boundary included. The points come back as they went in: their
/// coordinates, read from `u64`, convert back exactly.
#[verifier::external_body]
fn index_locate_at_least(index: &NodePointIndex, cpu: u64, memory: u64) -> (r: Vec<(u64, u64, u64)>)
    ensures
        forall|p: (u64, u64, u64)|
            #[trigger] r@.to_multiset().count(p) == (if point_at_least(p, cpu, memory) {
                indexed_points(index).count(p)
            } else {
                0
            }),
{
    let envelope = rstar::AABB::from_corners([cpu as i128, memory as i128], [i128::MAX, i128::MAX]);
    index.tree.locate_in_envelope(&envelope).map(|g| (g.geom()[0] as u64, g.geom()[1] as u64, g.data)).collect()
}

/// The point under which a node is indexed.
pub open spec fn node_point(n: NodeView) -> (u64, u64, u64) {
    (n.available_cpu, n.available_memory, n.uid)
}

/// A node can be indexed: its available resources lie below the limit.
pub open spec fn indexable(n: NodeView) -> bool {
    n.available_cpu < INDEX_LIMIT && n.available_memory < INDEX_LIMIT
}

/// Entry `k` of the result is the node that point `k` of the located points
/// stands for.
pub open spec fn slot_matches(nodes: Map<u64, Node>, located: Seq<(u64, u64, u64)>, result: Seq<Node>, k: int) -> bool {
    &&& nodes.contains_key(located[k].2)
    &&& result[k]@ == nodes[located[k].2]@
    &&& node_point(result[k]@) == located[k]
}

/// Nodes indexed by the resources they have available.
pub struct NodeRTree {
    index: NodePointIndex,
    nodes: HashMap<u64, Node>,
}

impl NodeRTree {
    /// The indexed nodes, by uid.
    pub closed spec fn view(&self) -> Map<u64, NodeView> {
        self.nodes@.map_values(|n: Node| n@)
    }

    pub closed spec fn wf(&self) -> bool {
        &&& forall|u: u64| #[trigger] self.nodes@.contains_key(u) ==> self.nodes@[u]@.uid == u && indexable(
            self.nodes@[u]@,
        )
        &&& forall|p: (u64, u64, u64)|
            #[trigger] indexed_points(&self.index).count(p) == (if self.nodes@.contains_key(p.2) && node_point(
                self.nodes@[p.2]@,
            ) == p {
                1nat
            } else {
                0nat
            })
    }

    /// In a sound index each node sits under its own uid and can be indexed.
    pub proof fn lemma_wf_nodes(&self)
        requires
            self.wf(),
        ensures
            forall|u: u64| #[trigger] self.view().contains_key(u) ==> self.view()[u].uid == u && indexable(
                self.view()[u],
            ),
    {
    }

    pub fn new() -> (r: Self)
        ensures
            r.wf(),
            r.view() == Map::<u64, NodeView>::empty(),
    {
        let r = NodeRTree { index: index_new(), nodes: HashMap::new() };
        assert(r.view() =~= Map::<u64, NodeView>::empty());
        r
    }

    fn point_of(node: &Node) -> (r: (u64, u64, u64))
        ensures
            r == node_point(node@),
    {
        (node.spec.available_cpu, node.spec.available_memory, node.metadata.uid)
    }

    /// Adds a node not indexed yet.
    pub fn insert(&mut self, node: Node)
        requires
            old(self).wf(),
            indexable(node@),
            !old(self).view().contains_key(node@.uid),
        ensures
            final(self).wf(),
            final(self).view() == old(self).view().insert(node@.uid, node@),
    {
        broadcast use vstd::std_specs::hash::group_hash_axioms;
        let p = Self::point_of(&node);
        let uid = node.metadata.uid;
        let ghost old_points = indexed_points(&self.index);
        let ghost old_nodes = self.nodes@;
        index_insert(&mut self.index, p);
        self.nodes.insert(uid, node);
        proof {
            assert forall|q: (u64, u64, u64)|
                #[trigger] indexed_points(&self.index).count(q) == (if self.nodes@.contains_key(q.2) && node_point(
                    self.nodes@[q.2]@,
                ) == q {
                    1nat
                } else {
                    0nat
                }) by {
                assert(old_points.count(q) == (if old_nodes.contains_key(q.2) && node_point(old_nodes[q.2]@) == q {
                    1nat
                } else {
                    0nat
                }));
                if q == p {
                    assert(!old_nodes.contains_key(uid));
                } else if q.2 == uid {
                    assert(!old_nodes.contains_key(uid));
                }
            }
            assert(self.view() =~= old(self).view().insert(node@.uid, node@));
        }
    }

    /// Takes out the indexed node with this uid, if any.
    pub fn remove(&mut self, uid: u64) -> (r: Option<Node>)
        requires
            old(self).wf(),
        ensures
            final(self).wf(),
            final(self).view() == old(self).view().remove(uid),
            match r {
                Some(n) => old(self).view().contains_key(uid) && n@ == old(self).view()[uid],
                None => !old(self).view().contains_key(uid),
            },
    {
        broadcast use vstd::std_specs::hash::group_hash_axioms;
        let ghost old_points = indexed_points(&self.index);
        let ghost old_nodes = self.nodes@;
        match self.nodes.remove(&uid) {
            None => {
                assert(self.view() =~= old(self).view().remove(uid));
                None
            },
            Some(node) => {
                let p = Self::point_of(&node);
                let _ = index_remove(&mut self.index, p);
                proof {
                    assert forall|q: (u64, u64, u64)|
                        #[trigger] indexed_points(&self.index).count(q) == (if self.nodes@.contains_key(q.2)
                            && node_point(self.nodes@[q.2]@) == q {
                            1nat
                        } else {
                            0nat
                        }) by {
                        assert(old_points.count(q) == (if old_nodes.contains_key(q.2) && node_point(old_nodes[q.2]@)
                            == q {
                            1nat
                        } else {
                            0nat
                        }));
                    }
                    assert(self.view() =~= old(self).view().remove(uid));
                }
                Some(node)
            },
        }
    }

    /// The indexed nodes, by uid.
    pub fn node_map(&self) -> (r: &HashMap<u64, Node>)
        ensures
            r@.map_values(|n: Node| n@) == self.view(),
    {
        &self.nodes
    }

    /// The indexed node with this uid, if any.
    pub fn get(&self, uid: u64) -> (r: Option<&Node>)
        ensures
            match r {
                Some(n) => self.view().contains_key(uid) && n@ == self.view()[uid],
                None => !self.view().contains_key(uid),
            },
    {
        broadcast use vstd::std_specs::hash::group_hash_axioms;
        self.nodes.get(&uid)
    }

    /// Replaces `result` with the indexed nodes that have at least `cpu` and
    /// `memory` available.
    pub fn find_suitable_nodes(&self, cpu: u64, memory: u64, result: &mut Vec<Node>)
        requires
            self.wf(),
        ensures
            forall|i: int|
                0 <= i < final(result)@.len() ==> {
                    let n = #[trigger] final(result)@[i]@;
                    &&& self.view().contains_key(n.uid)
                    &&& self.view()[n.uid] == n
                    &&& n.available_cpu >= cpu
                    &&& n.available_memory >= memory
                },
            forall|u: u64|
                #[trigger] self.view().contains_key(u) && self.view()[u].available_cpu >= cpu
                    && self.view()[u].available_memory >= memory ==> exists|i: int|
                    0 <= i < final(result)@.len() && (#[trigger] final(result)@[i])@.uid == u,
            forall|i: int, j: int|
                0 <= i < j < final(result)@.len() ==> (#[trigger] final(result)@[i])@.uid
                    != (#[trigger] final(result)@[j])@.uid,
    {
        broadcast use vstd::std_specs::hash::group_hash_axioms;
        result.clear();
        let located = index_locate_at_least(&self.index, cpu, memory);
        let mut i: usize = 0;
        while i < located.len()
            invariant
                self.wf(),
                i <= located.len(),
                result@.len() == i,
                forall|p: (u64, u64, u64)|
                    #[trigger] located@.to_multiset().count(p) == (if point_at_least(p, cpu, memory) {
                        indexed_points(&self.index).count(p)
                    } else {
                        0
                    }),
                forall|k: int| 0 <= k < i ==> #[trigger] slot_matches(self.nodes@, located@, result@, k),
            decreases located.len() - i,
        {
            let p = located[i];
            proof {
                assert(located@.contains(p));
                assert(located@.to_multiset().count(p) > 0);
                assert(point_at_least(p, cpu, memory));
                assert(indexed_points(&self.index).count(p) > 0);
                assert(self.nodes@.contains_key(p.2) && node_point(self.nodes@[p.2]@) == p);
            }
            let n = self.nodes.get(&p.2).unwrap();
            let c = n.clone();
            assert(c@ == self.nodes@[p.2]@);
            let ghost prev = result@;
            result.push(c);
            assert(result@ == prev.push(c));
            assert(p == located@[i as int]);
            assert(result@[i as int]@ == self.nodes@[located@[i as int].2]@);
            assert forall|k: int| 0 <= k < i + 1 implies #[trigger] slot_matches(self.nodes@, located@, result@, k) by {
                if k < i {
                    assert(result@[k] == prev[k]);
                    assert(slot_matches(self.nodes@, located@, prev, k));
                }
            }
            i = i + 1;
        }
        proof {
            assert forall|k: int| 0 <= k < result@.len() implies {
                let n = #[trigger] result@[k]@;
                &&& self.view().contains_key(n.uid)
                &&& self.view()[n.uid] == n
                &&& n.available_cpu >= cpu
                &&& n.available_memory >= memory
            } by {
                let q = located@[k];
                assert(slot_matches(self.nodes@, located@, result@, k));
                assert(located@.contains(q));
                assert(located@.to_multiset().count(q) > 0);
            }
            assert forall|u: u64|
                #[trigger] self.view().contains_key(u) && self.view()[u].available_cpu >= cpu
                    && self.view()[u].available_memory >= memory implies exists|k: int|
                0 <= k < result@.len() && (#[trigger] result@[k])@.uid == u by {
                let q = node_point(self.nodes@[u]@);
                assert(indexable(self.nodes@[u]@));
                assert(indexed_points(&self.index).count(q) == 1);
                assert(located@.to_multiset().count(q) > 0);
                assert(located@.contains(q));
                let k = choose|k: int| 0 <= k < located@.len() && located@[k] == q;
                assert(slot_matches(self.nodes@, located@, result@, k));
                assert(result@[k]@.uid == u);
            }
            assert forall|x: (u64, u64, u64)| located@.to_multiset().contains(x) implies located@.to_multiset().count(
                x,
            ) == 1 by {
                assert(located@.to_multiset().count(x) > 0);
            }
            located@.lemma_multiset_has_no_duplicates_conv();
            assert forall|a: int, b: int| 0 <= a < b < result@.len() implies (#[trigger] result@[a])@.uid
                != (#[trigger] result@[b])@.uid by {
                assert(slot_matches(self.nodes@, located@, result@, a));
                assert(slot_matches(self.nodes@, located@, result@, b));
            }
        }
    }
}

} // verus!
