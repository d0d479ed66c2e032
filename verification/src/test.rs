use vstd::prelude::*;
use crate::kubelet::eviction_order::{EvictionOrder, key_added};
use crate::objects::node::Node;
use crate::objects::pod::{Pod, QoSClass};
use crate::scheduler::active_queue::{ActiveQCmpPriority, ActiveQCmpUid};
use crate::scheduler::node_index::NodeRTree;
use crate::scheduler::queues::active_queue::{rank_inserted, rank_removed, ActiveMaxQ, ActiveMinQ};
use crate::scheduler::active_queue::TraitActiveQCmp;
use crate::scheduler::backoff_queue::{BackOffQConstant, BackOffQExponential, TraitBackOffQ, doubled, insert_sorted};

verus! {

/// Integrity checks of the queues and the node index, run on fixed inputs.
/// Times are in milliseconds.
pub struct Test();

/// Whether every node has at least `cpu` and `memory` available.
fn all_consumable(nodes: &Vec<Node>, cpu: u64, memory: u64) -> (r: bool)
    ensures
        r == forall|i: int| 0 <= i < nodes@.len() ==> (#[trigger] nodes@[i])@.available_cpu >= cpu
            && nodes@[i]@.available_memory >= memory,
{
    let mut i: usize = 0;
    while i < nodes.len()
        invariant
            i <= nodes.len(),
            forall|j: int| 0 <= j < i ==> (#[trigger] nodes@[j])@.available_cpu >= cpu
                && nodes@[j]@.available_memory >= memory,
        decreases nodes.len() - i,
    {
        if !nodes[i].is_consumable(cpu, memory) {
            return false;
        }
        i = i + 1;
    }
    true
}

/// A list of nodes whose uids are distinct, all in `s`, and cover `s`, has
/// as many entries as `s`.
proof fn lemma_covering_len(nodes: Seq<Node>, s: Set<u64>)
    requires
        forall|i: int| 0 <= i < nodes.len() ==> s.contains((#[trigger] nodes[i])@.uid),
        forall|u: u64| s.contains(u) ==> exists|i: int| 0 <= i < nodes.len() && (#[trigger] nodes[i])@.uid == u,
        forall|i: int, j: int| 0 <= i < j < nodes.len() ==> (#[trigger] nodes[i])@.uid != (#[trigger] nodes[j])@.uid,
    ensures
        nodes.len() == s.len(),
{
    let uids = nodes.map_values(|n: Node| n@.uid);
    assert(uids.no_duplicates()) by {
        assert forall|i: int, j: int| 0 <= i < uids.len() && 0 <= j < uids.len() && i != j implies uids[i]
            != uids[j] by {
            if i < j {
                assert(nodes[i]@.uid != nodes[j]@.uid);
            } else {
                assert(nodes[j]@.uid != nodes[i]@.uid);
            }
        }
    }
    assert(uids.to_set() =~= s) by {
        assert forall|u: u64| s.contains(u) implies uids.to_set().contains(u) by {
            let i = choose|i: int| 0 <= i < nodes.len() && (#[trigger] nodes[i])@.uid == u;
            assert(uids[i] == u);
        }
        assert forall|u: u64| uids.to_set().contains(u) implies s.contains(u) by {
            let i = choose|i: int| 0 <= i < uids.len() && uids[i] == u;
            assert(s.contains(nodes[i]@.uid));
        }
    }
    uids.unique_seq_to_set();
}

/// Whether a pod was handed out and it has the uid and priority of `expected`.
fn same_pod(got: &Option<Pod>, expected: &Pod) -> (r: bool)
    ensures
        r == (got is Some && got->0@.uid == expected@.uid && got->0@.priority == expected@.priority),
{
    match got {
        Some(p) => p.metadata.uid == expected.metadata.uid && p.spec.priority == expected.spec.priority,
        None => false,
    }
}

impl Test {
    /// The constant back-off queue keeps each pod 30 s, and hands out pods of
    /// equal exit time by increasing uid.
    pub fn test_backoff_queue_constant() -> (r: bool)
        ensures
            r,
    {
        let mut q = BackOffQConstant::new(30000);
        let mut ok = true;
        q.push(1, 0, 0);
        ok = ok && q.try_pop(29950) == None::<u64>;
        ok = ok && q.try_pop(30050) == Some(1u64);
        ok = ok && q.try_pop(30050) == None::<u64>;

        q.push(1, 1000, 1000);
        ok = ok && q.try_pop(30950) == None::<u64>;
        ok = ok && q.try_pop(31050) == Some(1u64);
        ok = ok && q.try_pop(31050) == None::<u64>;

        q.push(1, 123, 5000);
        ok = ok && q.try_pop(34950) == None::<u64>;
        ok = ok && q.try_pop(35050) == Some(1u64);
        ok = ok && q.try_pop(35050) == None::<u64>;

        proof {
            reveal_with_fuel(insert_sorted, 4);
        }
        q.push(1, 3, 1000);
        assert(q.entries() =~= seq![(31000u64, 1u64)]);
        q.push(2, 1, 1000);
        assert(q.entries() =~= seq![(31000u64, 1u64), (31000u64, 2u64)]);
        assert(q.entries()[1].1 == 2);
        q.push(2, 2, 2000);
        assert(q.entries() =~= seq![(31000u64, 1u64), (31000u64, 2u64)]);
        q.push(3, 2, 1000);
        assert(q.entries() =~= seq![(31000u64, 1u64), (31000u64, 2u64), (31000u64, 3u64)]);
        ok = ok && q.try_pop(31050) == Some(1u64);
        ok = ok && q.try_pop(31050) == Some(2u64);
        ok = ok && q.try_pop(31050) == Some(3u64);
        ok = ok && q.try_pop(31050) == None::<u64>;

        q.push(3, 1, 1000);
        q.push(1, 1, 1000);
        assert(q.entries() =~= seq![(31000u64, 1u64), (31000u64, 3u64)]);
        q.push(2, 1, 1000);
        assert(q.entries() =~= seq![(31000u64, 1u64), (31000u64, 2u64), (31000u64, 3u64)]);
        ok = ok && q.try_pop(31050) == Some(1u64);
        ok = ok && q.try_pop(31050) == Some(2u64);
        ok = ok && q.try_pop(31050) == Some(3u64);
        ok = ok && q.try_pop(31050) == None::<u64>;

        q.push(3, 1, 1000);
        q.push(1, 1, 1000);
        assert(q.entries() =~= seq![(31000u64, 1u64), (31000u64, 3u64)]);
        q.push(2, 1, 1000);
        assert(q.entries() =~= seq![(31000u64, 1u64), (31000u64, 2u64), (31000u64, 3u64)]);
        assert(q.entries()[0].1 == 1);
        ok = ok && q.try_remove(1);
        ok = ok && !q.try_remove(1);
        ok = ok && q.try_pop(31050) == Some(2u64);
        ok = ok && !q.try_remove(2);
        ok = ok && q.try_remove(3);
        ok = ok && q.try_pop(31050) == None::<u64>;
        ok
    }

    /// The exponential back-off queue waits 1 s after the first failure,
    /// doubling with each failure up to 10 s.
    pub fn test_backoff_queue_exponential() -> (r: bool)
        ensures
            r,
    {
        let mut q = BackOffQExponential::new(1000, 10000);
        let mut ok = true;
        proof {
            reveal_with_fuel(doubled, 6);
            reveal_with_fuel(insert_sorted, 4);
        }
        q.push(1, 0, 0);
        ok = ok && q.try_pop(950) == None::<u64>;
        ok = ok && q.try_pop(1050) == Some(1u64);
        ok = ok && q.try_pop(1050) == None::<u64>;

        q.push(1, 1, 1000);
        ok = ok && q.try_pop(2950) == None::<u64>;
        ok = ok && q.try_pop(3050) == Some(1u64);
        ok = ok && q.try_pop(3050) == None::<u64>;

        q.push(1, 4, 1000);
        ok = ok && q.try_pop(10950) == None::<u64>;
        ok = ok && q.try_pop(11050) == Some(1u64);
        ok = ok && q.try_pop(11050) == None::<u64>;

        q.push(1, 3, 1000);
        assert(q.entries() =~= seq![(9000u64, 1u64)]);
        q.push(2, 1, 1000);
        assert(q.entries() =~= seq![(3000u64, 2u64), (9000u64, 1u64)]);
        q.push(3, 2, 1000);
        assert(q.entries() =~= seq![(3000u64, 2u64), (5000u64, 3u64), (9000u64, 1u64)]);
        ok = ok && q.try_pop(9050) == Some(2u64);
        ok = ok && q.try_pop(9050) == Some(3u64);
        ok = ok && q.try_pop(9050) == Some(1u64);
        ok = ok && q.try_pop(9050) == None::<u64>;

        q.push(3, 1, 1000);
        q.push(1, 1, 1000);
        assert(q.entries() =~= seq![(3000u64, 1u64), (3000u64, 3u64)]);
        q.push(2, 1, 1000);
        assert(q.entries() =~= seq![(3000u64, 1u64), (3000u64, 2u64), (3000u64, 3u64)]);
        ok = ok && q.try_pop(9050) == Some(1u64);
        ok = ok && q.try_pop(9050) == Some(2u64);
        ok = ok && q.try_pop(9050) == Some(3u64);
        ok = ok && q.try_pop(9050) == None::<u64>;

        q.push(3, 1, 1000);
        q.push(1, 1, 1000);
        assert(q.entries() =~= seq![(3000u64, 1u64), (3000u64, 3u64)]);
        q.push(2, 1, 1000);
        assert(q.entries() =~= seq![(3000u64, 1u64), (3000u64, 2u64), (3000u64, 3u64)]);
        assert(q.entries()[0].1 == 1);
        ok = ok && q.try_remove(1);
        ok = ok && !q.try_remove(1);
        ok = ok && q.try_pop(9050) == Some(2u64);
        ok = ok && !q.try_remove(2);
        ok = ok && q.try_remove(3);
        ok = ok && q.try_pop(9050) == None::<u64>;
        ok
    }

    /// Pods are evicted by QoS class (BestEffort, then Burstable, then
    /// Guaranteed), then by priority, then by uid.
    pub fn test_pod_qos_class() -> (r: bool)
        ensures
            r,
    {
        let best_effort = QoSClass::BestEffort.rank();
        let burstable = QoSClass::Burstable.rank();
        let guaranteed = QoSClass::Guaranteed.rank();
        let mut q = EvictionOrder::new();
        proof {
            reveal_with_fuel(key_added, 6);
        }
        q.add((guaranteed, 2, 2));
        q.add((best_effort, 0, 1));
        q.add((guaranteed, 1, 0));
        q.add((best_effort, 0, 0));
        q.add((burstable, 0, 0));
        let mut ok = true;
        ok = ok && q.pop_first() == Some((best_effort, 0i64, 0u64));
        ok = ok && q.pop_first() == Some((best_effort, 0i64, 1u64));
        ok = ok && q.pop_first() == Some((burstable, 0i64, 0u64));
        ok = ok && q.pop_first() == Some((guaranteed, 1i64, 0u64));
        ok = ok && q.pop_first() == Some((guaranteed, 2i64, 2u64));
        ok = ok && q.pop_first() == None::<(u8, i64, u64)>;
        ok
    }

    /// The priority queue hands out the pod of greatest priority first, the
    /// greater uid first among equal priorities.
    pub fn test_active_queue_cmp_priority() -> (r: bool)
        ensures
            r,
    {
        let mut q = ActiveMaxQ::<ActiveQCmpPriority>::new();
        let mut p1 = Pod::default();
        let mut p2 = Pod::default();
        let mut p22 = Pod::default();
        let mut p3 = Pod::default();
        p1.spec.priority = 1;
        p1.metadata.uid = 1;
        p2.spec.priority = 2;
        p22.spec.priority = 2;
        p22.metadata.uid = 22;
        p3.spec.priority = 3;
        p3.metadata.uid = 3;
        proof {
            reveal_with_fuel(rank_inserted, 5);
            reveal_with_fuel(rank_removed, 5);
        }

        q.push(p2.clone());
        q.push(p3.clone());
        q.push(p1.clone());
        q.push(p22.clone());
        assert(q.view() =~= seq![p1@, p2@, p22@, p3@]);
        let mut ok = true;
        ok = ok && same_pod(&q.try_pop(), &p3);
        ok = ok && same_pod(&q.try_pop(), &p22);
        ok = ok && same_pod(&q.try_pop(), &p2);
        ok = ok && same_pod(&q.try_pop(), &p1);
        ok = ok && q.try_pop().is_none();

        q.push(p2.clone());
        q.push(p3.clone());
        q.push(p1.clone());
        q.push(p22.clone());
        assert(q.view() =~= seq![p1@, p2@, p22@, p3@]);
        assert(ActiveQCmpPriority::rank_of(q.view()[1]) == ActiveQCmpPriority::rank_of(p2@));
        ok = ok && q.try_remove(p2.clone());
        assert(q.view() =~= seq![p1@, p22@, p3@]);
        ok = ok && !q.try_remove(p2.clone());
        ok = ok && same_pod(&q.try_pop(), &p3);
        ok = ok && same_pod(&q.try_pop(), &p22);
        ok = ok && same_pod(&q.try_pop(), &p1);
        ok = ok && q.try_pop().is_none();
        ok
    }

    /// The uid queue hands out the pod of least uid first; a pod of a uid
    /// already queued is not queued twice.
    pub fn test_active_queue_cmp_uid() -> (r: bool)
        ensures
            r,
    {
        let mut q = ActiveMinQ::<ActiveQCmpUid>::new();
        let mut p1 = Pod::default();
        let mut p2 = Pod::default();
        let mut p22 = Pod::default();
        let mut p3 = Pod::default();
        p1.metadata.uid = 1;
        p2.metadata.uid = 2;
        p22.metadata.uid = 2;
        p3.metadata.uid = 3;
        proof {
            reveal_with_fuel(rank_inserted, 4);
            reveal_with_fuel(rank_removed, 4);
        }

        q.push(p2.clone());
        assert(q.view() =~= seq![p2@]);
        q.push(p1.clone());
        assert(q.view() =~= seq![p1@, p2@]);
        assert(ActiveQCmpUid::rank_of(q.view()[1]) == ActiveQCmpUid::rank_of(p22@));
        q.push(p22.clone());
        q.push(p3.clone());
        assert(q.view() =~= seq![p1@, p2@, p3@]);
        let mut ok = true;
        ok = ok && same_pod(&q.try_pop(), &p1);
        ok = ok && same_pod(&q.try_pop(), &p2);
        ok = ok && same_pod(&q.try_pop(), &p3);
        ok = ok && q.try_pop().is_none();

        q.push(p2.clone());
        q.push(p1.clone());
        assert(ActiveQCmpUid::rank_of(q.view()[1]) == ActiveQCmpUid::rank_of(p22@));
        q.push(p22.clone());
        q.push(p3.clone());
        assert(q.view() =~= seq![p1@, p2@, p3@]);
        assert(ActiveQCmpUid::rank_of(q.view()[0]) == ActiveQCmpUid::rank_of(p1@));
        ok = ok && q.try_remove(p1.clone());
        assert(q.view() =~= seq![p2@, p3@]);
        ok = ok && !q.try_remove(p1.clone());
        ok = ok && same_pod(&q.try_pop(), &p22);
        ok = ok && same_pod(&q.try_pop(), &p3);
        ok = ok && q.try_pop().is_none();
        ok
    }

    /// The node index finds exactly the nodes with enough CPU and memory
    /// available.
    pub fn test_node_rtree() -> (r: bool)
        ensures
            r,
    {
        let mut index = NodeRTree::new();
        let mut node1 = Node::default();
        let mut node2 = Node::default();
        let mut node3 = Node::default();
        let mut node4 = Node::default();
        node1.spec.available_cpu = 0;
        node1.spec.available_memory = 0;
        node1.metadata.uid = 1;
        node2.spec.available_cpu = 10;
        node2.spec.available_memory = 0;
        node2.metadata.uid = 2;
        node3.spec.available_cpu = 0;
        node3.spec.available_memory = 10;
        node3.metadata.uid = 3;
        node4.spec.available_cpu = 10;
        node4.spec.available_memory = 10;
        node4.metadata.uid = 4;
        index.insert(node1);
        index.insert(node2);
        index.insert(node3);
        index.insert(node4);
        let ghost v = index.view();
        assert(v.dom() =~= set![1u64, 2u64, 3u64, 4u64]);

        let mut result: Vec<Node> = Vec::new();
        let mut ok = true;
        index.find_suitable_nodes(0, 0, &mut result);
        proof {
            let s = set![1u64, 2u64, 3u64, 4u64];
            assert forall|u: u64| s.contains(u) implies exists|i: int|
                0 <= i < result@.len() && (#[trigger] result@[i])@.uid == u by {
                assert(v.contains_key(u));
            }
            lemma_covering_len(result@, s);
            assert(s.len() == 4) by {
                assert(s =~= Set::empty().insert(1u64).insert(2u64).insert(3u64).insert(4u64));
            }
        }
        ok = ok && result.len() == 4;

        index.find_suitable_nodes(10, 0, &mut result);
        proof {
            let s = set![2u64, 4u64];
            assert forall|i: int| 0 <= i < result@.len() implies s.contains((#[trigger] result@[i])@.uid) by {
                assert(v.contains_key(result@[i]@.uid));
            }
            assert forall|u: u64| s.contains(u) implies exists|i: int|
                0 <= i < result@.len() && (#[trigger] result@[i])@.uid == u by {
                assert(v.contains_key(u));
            }
            lemma_covering_len(result@, s);
        }
        ok = ok && result.len() == 2;
        ok = ok && all_consumable(&result, 10, 0);

        index.find_suitable_nodes(0, 10, &mut result);
        proof {
            let s = set![3u64, 4u64];
            assert forall|i: int| 0 <= i < result@.len() implies s.contains((#[trigger] result@[i])@.uid) by {
                assert(v.contains_key(result@[i]@.uid));
            }
            assert forall|u: u64| s.contains(u) implies exists|i: int|
                0 <= i < result@.len() && (#[trigger] result@[i])@.uid == u by {
                assert(v.contains_key(u));
            }
            lemma_covering_len(result@, s);
        }
        ok = ok && result.len() == 2;
        ok = ok && all_consumable(&result, 0, 10);

        index.find_suitable_nodes(10, 10, &mut result);
        proof {
            let s = set![4u64];
            assert forall|i: int| 0 <= i < result@.len() implies s.contains((#[trigger] result@[i])@.uid) by {
                assert(v.contains_key(result@[i]@.uid));
            }
            assert forall|u: u64| s.contains(u) implies exists|i: int|
                0 <= i < result@.len() && (#[trigger] result@[i])@.uid == u by {
                assert(v.contains_key(u));
            }
            lemma_covering_len(result@, s);
        }
        ok = ok && result.len() == 1;
        ok = ok && all_consumable(&result, 10, 10);

        index.find_suitable_nodes(11, 0, &mut result);
        proof {
            let s = Set::<u64>::empty();
            assert forall|i: int| 0 <= i < result@.len() implies s.contains((#[trigger] result@[i])@.uid) by {
                assert(v.contains_key(result@[i]@.uid));
            }
            lemma_covering_len(result@, s);
        }
        ok = ok && result.len() == 0;
        ok
    }

    /// Runs every check; all of them pass.
    pub fn test_all() -> (r: bool)
        ensures
            r,
    {
        let a = Test::test_backoff_queue_exponential();
        let b = Test::test_backoff_queue_constant();
        let c = Test::test_active_queue_cmp_uid();
        let d = Test::test_node_rtree();
        let e = Test::test_active_queue_cmp_priority();
        let f = Test::test_pod_qos_class();
        a && b && c && d && e && f
    }
}

} // verus!
