use vstd::prelude::*;
use std::collections::HashMap;
use crate::objects::node::{Node, NodeView};
use crate::objects::node_group::NodeGroup;
use crate::objects::uid::UidCounter;

verus! {

broadcast use vstd::std_specs::hash::group_hash_axioms;

/// A free node group as the autoscaler sees it: group uid, nodes left,
/// the template node.
pub type GroupView = (u64, u64, NodeView);

/// The uid the counter hands out after `u`.
pub open spec fn next_of(u: u64) -> u64 {
    if u == u64::MAX {
        0
    } else {
        (u + 1) as u64
    }
}

/// The template node readied for use: uid `uid`, everything installed
/// available.
pub open spec fn prepared_node(n: NodeView, uid: u64) -> NodeView {
    NodeView { uid: uid, available_cpu: n.installed_cpu, available_memory: n.installed_memory, ..n }
}

/// Groups strictly increase by group uid.
pub open spec fn groups_sorted(s: Seq<GroupView>) -> bool {
    forall|i: int, j: int| 0 <= i < j < s.len() ==> (#[trigger] s[i]).0 < (#[trigger] s[j]).0
}

/// Used nodes strictly increase by node uid.
pub open spec fn used_sorted(s: Seq<(u64, u64, u64)>) -> bool {
    forall|i: int, j: int| 0 <= i < j < s.len() ==> (#[trigger] s[i]).0 < (#[trigger] s[j]).0
}

/// `s` with group `g` put in group-uid order, replacing one of the same uid.
pub open spec fn group_added(s: Seq<GroupView>, g: GroupView) -> Seq<GroupView>
    decreases s.len(),
{
    if s.len() == 0 {
        seq![g]
    } else if g.0 < s[0].0 {
        seq![g] + s
    } else if g.0 == s[0].0 {
        seq![g] + s.drop_first()
    } else {
        seq![s[0]] + group_added(s.drop_first(), g)
    }
}

/// `s` with the used node `e` put in node-uid order, replacing one of the
/// same uid.
pub open spec fn used_added(s: Seq<(u64, u64, u64)>, e: (u64, u64, u64)) -> Seq<(u64, u64, u64)>
    decreases s.len(),
{
    if s.len() == 0 {
        seq![e]
    } else if e.0 < s[0].0 {
        seq![e] + s
    } else if e.0 == s[0].0 {
        seq![e] + s.drop_first()
    } else {
        seq![s[0]] + used_added(s.drop_first(), e)
    }
}

/// The free groups after reading a configuration's groups in turn, the
/// template of each readied with the next uid.
pub open spec fn groups_loaded(free: Seq<GroupView>, groups: Seq<GroupView>, next: u64) -> Seq<GroupView>
    decreases groups.len(),
{
    if groups.len() == 0 {
        free
    } else {
        groups_loaded(
            group_added(free, (groups[0].0, groups[0].1, prepared_node(groups[0].2, next))),
            groups.drop_first(),
            next_of(next),
        )
    }
}

/// The counter after handing out `n` uids.
pub open spec fn advanced(u: u64, n: nat) -> u64
    decreases n,
{
    if n == 0 {
        u
    } else {
        advanced(next_of(u), (n - 1) as nat)
    }
}

/// The number of nodes the groups hold.
pub open spec fn amount_sum(s: Seq<GroupView>) -> int
    decreases s.len(),
{
    if s.len() == 0 {
        0
    } else {
        amount_sum(s.drop_last()) + s.last().1
    }
}

/// Some used node has this uid.
pub open spec fn is_used(used: Seq<(u64, u64, u64)>, node_uid: u64) -> bool {
    exists|i: int| 0 <= i < used.len() && (#[trigger] used[i]).0 == node_uid
}

/// A node's count of low-utilization cycles after one more.
pub open spec fn bumped(low: Map<u64, u64>, node_uid: u64) -> u64 {
    let c: u64 = if low.contains_key(node_uid) {
        low[node_uid]
    } else {
        0
    };
    if c == u64::MAX {
        c
    } else {
        (c + 1) as u64
    }
}

/// The low-utilization counts after the reports `info` (node uid, whether
/// both its CPU and memory use are at or below the removal thresholds):
/// each low report of a used node adds a cycle.
pub open spec fn low_after(low: Map<u64, u64>, used: Seq<(u64, u64, u64)>, info: Seq<(u64, bool)>) -> Map<u64, u64>
    decreases info.len(),
{
    if info.len() == 0 {
        low
    } else {
        let (uid, is_low) = info[0];
        let next = if is_low && is_used(used, uid) {
            low.insert(uid, bumped(low, uid))
        } else {
            low
        };
        low_after(next, used, info.drop_first())
    }
}

/// The nodes whose removal the reports ask for: a used node reported low
/// once it has been low for `delay` cycles, once per such report.
pub open spec fn removal_requests(
    low: Map<u64, u64>,
    used: Seq<(u64, u64, u64)>,
    info: Seq<(u64, bool)>,
    delay: u64,
) -> Seq<u64>
    decreases info.len(),
{
    if info.len() == 0 {
        Seq::empty()
    } else {
        let (uid, is_low) = info[0];
        if is_low && is_used(used, uid) {
            let next = low.insert(uid, bumped(low, uid));
            let here: Seq<u64> = if bumped(low, uid) >= delay {
                seq![uid]
            } else {
                Seq::empty()
            };
            here + removal_requests(next, used, info.drop_first(), delay)
        } else {
            removal_requests(low, used, info.drop_first(), delay)
        }
    }
}

/// A group with nodes left whose template can take one of the requests.
pub open spec fn group_fits(g: GroupView, requests: Seq<(u64, u64)>) -> bool {
    g.1 > 0 && exists|i: int|
        0 <= i < requests.len() && g.2.available_cpu >= (#[trigger] requests[i]).0 && g.2.available_memory
            >= requests[i].1
}

/// `i` is the first free group that fits.
pub open spec fn is_best_group(free: Seq<GroupView>, requests: Seq<(u64, u64)>, i: int) -> bool {
    &&& 0 <= i < free.len()
    &&& group_fits(free[i], requests)
    &&& forall|j: int| 0 <= j < i ==> !group_fits(#[trigger] free[j], requests)
}

/// No free group fits.
pub open spec fn no_group_fits(free: Seq<GroupView>, requests: Seq<(u64, u64)>) -> bool {
    forall|j: int| 0 <= j < free.len() ==> !group_fits(#[trigger] free[j], requests)
}

/// The position of the used node with this uid.
pub open spec fn used_index(used: Seq<(u64, u64, u64)>, node_uid: u64) -> int {
    choose|i: int| 0 <= i < used.len() && (#[trigger] used[i]).0 == node_uid
}

/// The position of the free group with this uid.
pub open spec fn group_index(free: Seq<GroupView>, group_uid: u64) -> int {
    choose|j: int| 0 <= j < free.len() && (#[trigger] free[j]).0 == group_uid
}

/// The autoscaler after it takes a node of uid `node_uid` from its `i`-th
/// free group, run by the last kubelet of its pool.
pub open spec fn node_taken(v: CAView, i: int, node_uid: u64) -> CAView {
    let g = v.free_nodes[i];
    CAView {
        free_nodes: v.free_nodes.update(i, (g.0, (g.1 - 1) as u64, g.2)),
        kubelet_pool: v.kubelet_pool.drop_last(),
        used_nodes: used_added(v.used_nodes, (node_uid, v.kubelet_pool.last(), g.0)),
        ..v
    }
}

/// The autoscaler after the used node `node_uid` is removed: its kubelet
/// returns to the pool, its group gets a node back (unless the count is at
/// its largest), its low-utilization count is dropped.
pub open spec fn after_remove(v: CAView, node_uid: u64) -> CAView {
    let i = used_index(v.used_nodes, node_uid);
    let e = v.used_nodes[i];
    let j = group_index(v.free_nodes, e.2);
    let g = v.free_nodes[j];
    CAView {
        kubelet_pool: v.kubelet_pool.push(e.1),
        free_nodes: v.free_nodes.update(j, (g.0, if g.1 == u64::MAX { g.1 } else { (g.1 + 1) as u64 }, g.2)),
        used_nodes: v.used_nodes.remove(i),
        low_utilization: v.low_utilization.remove(node_uid),
        ..v
    }
}

/// A node the autoscaler adds: the kubelet that runs it, its group and the
/// readied node.
#[derive(Debug)]
pub struct AddedNode {
    pub kubelet_sim_id: u64,
    pub group_uid: u64,
    pub node: Node,
}

/// What the autoscaler asks for after reading the metrics: nodes to remove,
/// and a node to add.
#[derive(Debug)]
pub struct CAOutcome {
    pub remove_nodes: Vec<u64>,
    pub added: Option<AddedNode>,
}

/// The model of the cluster autoscaler.
pub struct CAView {
    pub turned_on: bool,
    pub kubelet_pool: Seq<u64>,
    pub free_nodes: Seq<GroupView>,
    pub used_nodes: Seq<(u64, u64, u64)>,
    pub low_utilization: Map<u64, u64>,
    pub add_node_min_pending: u64,
    pub remove_node_delay_cycle: u64,
}

/// The cluster autoscaler: adds a node from its free groups when enough
/// pods are pending for lack of resources, and asks to remove nodes that
/// stay under-used.
pub struct CA {
    is_turned_on: bool,
    kubelet_pool: Vec<u64>,
    free_nodes: Vec<NodeGroup>,
    used_nodes: Vec<(u64, u64, u64)>,
    low_utilization: HashMap<u64, u64>,
    add_node_min_pending: u64,
    remove_node_delay_cycle: u64,
}

pub open spec fn group_view(g: NodeGroup) -> GroupView {
    (g.group_uid, g.amount, g.node@)
}

impl View for CA {
    type V = CAView;

    closed spec fn view(&self) -> CAView {
        CAView {
            turned_on: self.is_turned_on,
            kubelet_pool: self.kubelet_pool@,
            free_nodes: self.free_nodes@.map_values(|g: NodeGroup| group_view(g)),
            used_nodes: self.used_nodes@,
            low_utilization: self.low_utilization@,
            add_node_min_pending: self.add_node_min_pending,
            remove_node_delay_cycle: self.remove_node_delay_cycle,
        }
    }
}

impl CAView {
    /// Groups by uid, used nodes by uid, each used node from a known group,
    /// templates with resources installed, and a kubelet for every node
    /// left in the groups.
    pub open spec fn wf(self) -> bool {
        &&& groups_sorted(self.free_nodes)
        &&& used_sorted(self.used_nodes)
        &&& forall|i: int|
            0 <= i < self.used_nodes.len() ==> exists|j: int|
                0 <= j < self.free_nodes.len() && (#[trigger] self.free_nodes[j]).0 == (#[trigger] self.used_nodes[i]).2
        &&& templates_installed(self.free_nodes)
        &&& self.kubelet_pool.len() >= amount_sum(self.free_nodes)
    }
}

proof fn lemma_amount_sum_nonneg(s: Seq<GroupView>)
    ensures
        amount_sum(s) >= 0,
    decreases s.len(),
{
    if s.len() > 0 {
        lemma_amount_sum_nonneg(s.drop_last());
    }
}

proof fn lemma_amount_sum_update(s: Seq<GroupView>, i: int, g: GroupView)
    requires
        0 <= i < s.len(),
    ensures
        amount_sum(s.update(i, g)) == amount_sum(s) - s[i].1 + g.1,
    decreases s.len(),
{
    if i == s.len() - 1 {
        assert(s.update(i, g).drop_last() =~= s.drop_last());
    } else {
        lemma_amount_sum_update(s.drop_last(), i, g);
        assert(s.update(i, g).drop_last() =~= s.drop_last().update(i, g));
    }
}

proof fn lemma_amount_sum_at_least(s: Seq<GroupView>, i: int)
    requires
        0 <= i < s.len(),
    ensures
        amount_sum(s) >= s[i].1,
{
    lemma_amount_sum_update(s, i, (s[i].0, 0, s[i].2));
    lemma_amount_sum_nonneg(s.update(i, (s[i].0, 0, s[i].2)));
}

proof fn lemma_amount_sum_insert(s: Seq<GroupView>, i: int, g: GroupView)
    requires
        0 <= i <= s.len(),
    ensures
        amount_sum(s.insert(i, g)) == amount_sum(s) + g.1,
    decreases s.len(),
{
    if i == s.len() {
        assert(s.insert(i, g).drop_last() =~= s);
    } else {
        lemma_amount_sum_insert(s.drop_last(), i, g);
        assert(s.insert(i, g).drop_last() =~= s.drop_last().insert(i, g));
    }
}

proof fn lemma_group_added_at(s: Seq<GroupView>, g: GroupView, i: int, replace: bool)
    requires
        0 <= i <= s.len(),
        forall|j: int| 0 <= j < i ==> (#[trigger] s[j]).0 < g.0,
        replace ==> i < s.len() && s[i].0 == g.0,
        !replace ==> forall|j: int| i <= j < s.len() ==> g.0 < (#[trigger] s[j]).0,
    ensures
        group_added(s, g) == (if replace {
            s.update(i, g)
        } else {
            s.insert(i, g)
        }),
    decreases s.len(),
{
    if s.len() == 0 {
        assert(s.insert(i, g) =~= seq![g]);
    } else if i == 0 {
        if replace {
            assert(s.update(0, g) =~= seq![g] + s.drop_first());
        } else {
            assert(s.insert(0, g) =~= seq![g] + s);
        }
    } else {
        let t = s.drop_first();
        assert forall|j: int| 0 <= j < i - 1 implies (#[trigger] t[j]).0 < g.0 by {
            assert(t[j] == s[j + 1]);
        }
        if replace {
            assert(t[i - 1] == s[i]);
        } else {
            assert forall|j: int| i - 1 <= j < t.len() implies g.0 < (#[trigger] t[j]).0 by {
                assert(t[j] == s[j + 1]);
            }
        }
        lemma_group_added_at(t, g, i - 1, replace);
        if replace {
            assert(s.update(i, g) =~= seq![s[0]] + t.update(i - 1, g));
        } else {
            assert(s.insert(i, g) =~= seq![s[0]] + t.insert(i - 1, g));
        }
    }
}

proof fn lemma_used_added_at(s: Seq<(u64, u64, u64)>, e: (u64, u64, u64), i: int, replace: bool)
    requires
        0 <= i <= s.len(),
        forall|j: int| 0 <= j < i ==> (#[trigger] s[j]).0 < e.0,
        replace ==> i < s.len() && s[i].0 == e.0,
        !replace ==> forall|j: int| i <= j < s.len() ==> e.0 < (#[trigger] s[j]).0,
    ensures
        used_added(s, e) == (if replace {
            s.update(i, e)
        } else {
            s.insert(i, e)
        }),
    decreases s.len(),
{
    if s.len() == 0 {
        assert(s.insert(i, e) =~= seq![e]);
    } else if i == 0 {
        if replace {
            assert(s.update(0, e) =~= seq![e] + s.drop_first());
        } else {
            assert(s.insert(0, e) =~= seq![e] + s);
        }
    } else {
        let t = s.drop_first();
        assert forall|j: int| 0 <= j < i - 1 implies (#[trigger] t[j]).0 < e.0 by {
            assert(t[j] == s[j + 1]);
        }
        if replace {
            assert(t[i - 1] == s[i]);
        } else {
            assert forall|j: int| i - 1 <= j < t.len() implies e.0 < (#[trigger] t[j]).0 by {
                assert(t[j] == s[j + 1]);
            }
        }
        lemma_used_added_at(t, e, i - 1, replace);
        if replace {
            assert(s.update(i, e) =~= seq![s[0]] + t.update(i - 1, e));
        } else {
            assert(s.insert(i, e) =~= seq![s[0]] + t.insert(i - 1, e));
        }
    }
}

/// Every template has CPU and memory installed.
pub open spec fn templates_installed(s: Seq<GroupView>) -> bool {
    forall|j: int| 0 <= j < s.len() ==> (#[trigger] s[j]).2.installed_cpu > 0 && s[j].2.installed_memory > 0
}

proof fn lemma_amount_sum_prepend(x: GroupView, t: Seq<GroupView>)
    ensures
        amount_sum(seq![x] + t) == x.1 + amount_sum(t),
{
    lemma_amount_sum_insert(t, 0, x);
    assert(seq![x] + t =~= t.insert(0, x));
}

proof fn lemma_group_added_sum(s: Seq<GroupView>, g: GroupView)
    ensures
        amount_sum(group_added(s, g)) <= amount_sum(s) + g.1,
    decreases s.len(),
{
    if s.len() == 0 {
        lemma_amount_sum_prepend(g, s);
    } else {
        let t = s.drop_first();
        assert(s =~= seq![s[0]] + t);
        lemma_amount_sum_prepend(s[0], t);
        if g.0 < s[0].0 {
            lemma_amount_sum_prepend(g, s);
        } else if g.0 == s[0].0 {
            lemma_amount_sum_prepend(g, t);
        } else {
            lemma_group_added_sum(t, g);
            lemma_amount_sum_prepend(s[0], group_added(t, g));
        }
    }
}

proof fn lemma_group_added_installed(s: Seq<GroupView>, g: GroupView)
    requires
        templates_installed(s),
        g.2.installed_cpu > 0,
        g.2.installed_memory > 0,
    ensures
        templates_installed(group_added(s, g)),
    decreases s.len(),
{
    if s.len() > 0 {
        let t = s.drop_first();
        assert(templates_installed(t)) by {
            assert forall|j: int| 0 <= j < t.len() implies (#[trigger] t[j]).2.installed_cpu > 0
                && t[j].2.installed_memory > 0 by {
                assert(t[j] == s[j + 1]);
            }
        }
        if g.0 > s[0].0 {
            lemma_group_added_installed(t, g);
            let r = seq![s[0]] + group_added(t, g);
            assert forall|j: int| 0 <= j < r.len() implies (#[trigger] r[j]).2.installed_cpu > 0
                && r[j].2.installed_memory > 0 by {
                if j > 0 {
                    assert(r[j] == group_added(t, g)[j - 1]);
                }
            }
        } else if g.0 == s[0].0 {
            let r = seq![g] + t;
            assert forall|j: int| 0 <= j < r.len() implies (#[trigger] r[j]).2.installed_cpu > 0
                && r[j].2.installed_memory > 0 by {
                if j > 0 {
                    assert(r[j] == t[j - 1]);
                }
            }
        } else {
            let r = seq![g] + s;
            assert forall|j: int| 0 <= j < r.len() implies (#[trigger] r[j]).2.installed_cpu > 0
                && r[j].2.installed_memory > 0 by {
                if j > 0 {
                    assert(r[j] == s[j - 1]);
                }
            }
        }
    }
}

proof fn lemma_advanced_step(u: u64, n: nat)
    ensures
        advanced(u, n + 1) == next_of(advanced(u, n)),
    decreases n,
{
    if n > 0 {
        lemma_advanced_step(next_of(u), (n - 1) as nat);
        assert(advanced(u, n) == advanced(next_of(u), (n - 1) as nat));
        assert(advanced(u, n + 1) == advanced(next_of(u), n));
    } else {
        assert(advanced(u, 1) == advanced(next_of(u), 0));
    }
}

impl CA {
    pub closed spec fn wf(&self) -> bool {
        self@.wf()
    }

    /// A sound autoscaler keeps its groups and used nodes in uid order, a
    /// known group for every used node and a kubelet for every free node.
    pub proof fn lemma_wf_view(&self)
        requires
            self.wf(),
        ensures
            self@.wf(),
    {
    }

    /// Puts a group in uid order, replacing one of the same uid.
    fn add_group(free: &mut Vec<NodeGroup>, g: NodeGroup)
        requires
            groups_sorted(old(free)@.map_values(|x: NodeGroup| group_view(x))),
        ensures
            final(free)@.map_values(|x: NodeGroup| group_view(x)) == group_added(
                old(free)@.map_values(|x: NodeGroup| group_view(x)),
                group_view(g),
            ),
            groups_sorted(final(free)@.map_values(|x: NodeGroup| group_view(x))),
    {
        let ghost s = free@.map_values(|x: NodeGroup| group_view(x));
        let ghost gv = group_view(g);
        let mut i: usize = 0;
        while i < free.len() && free[i].group_uid < g.group_uid
            invariant
                i <= free.len(),
                s == free@.map_values(|x: NodeGroup| group_view(x)),
                groups_sorted(s),
                forall|j: int| 0 <= j < i ==> (#[trigger] s[j]).0 < g.group_uid,
            decreases free.len() - i,
        {
            assert(s[i as int].0 == free@[i as int].group_uid);
            i = i + 1;
        }
        let replace = i < free.len() && free[i].group_uid == g.group_uid;
        proof {
            if i < s.len() {
                assert(s[i as int].0 == free@[i as int].group_uid);
            }
            if !replace {
                assert forall|j: int| i <= j < s.len() implies g.group_uid < (#[trigger] s[j]).0 by {
                    if j > i {
                        assert(s[i as int].0 < s[j].0);
                    }
                }
            }
            lemma_group_added_at(s, gv, i as int, replace);
        }
        if replace {
            free.set(i, g);
            assert(free@.map_values(|x: NodeGroup| group_view(x)) =~= s.update(i as int, gv));
        } else {
            free.insert(i, g);
            assert(free@.map_values(|x: NodeGroup| group_view(x)) =~= s.insert(i as int, gv));
        }
        proof {
            let t = free@.map_values(|x: NodeGroup| group_view(x));
            assert forall|a: int, b: int| 0 <= a < b < t.len() implies (#[trigger] t[a]).0 < (#[trigger] t[b]).0 by {
                if replace {
                    if a != i && b != i {
                        assert(t[a] == s[a] && t[b] == s[b]);
                    } else if a == i {
                        assert(t[b] == s[b]);
                        assert(s[a].0 < s[b].0);
                    } else {
                        assert(t[a] == s[a]);
                        assert(s[a].0 < s[b].0);
                    }
                } else {
                    if a < i && b < i {
                        assert(t[a] == s[a] && t[b] == s[b]);
                    } else if a < i && b == i {
                        assert(t[a] == s[a]);
                    } else if a < i && b > i {
                        assert(t[a] == s[a] && t[b] == s[b - 1]);
                    } else if a == i {
                        assert(t[b] == s[b - 1]);
                    } else {
                        assert(t[a] == s[a - 1] && t[b] == s[b - 1]);
                    }
                }
            }
        }
    }

    /// An autoscaler, turned off, with the configuration's node groups as
    /// free groups (each template readied with the next uid; a later group
    /// of the same uid replaces an earlier one) and the kubelets made for
    /// them, one per node.
    pub fn new(
        groups: Vec<NodeGroup>,
        kubelet_sim_ids: Vec<u64>,
        add_node_min_pending: u64,
        remove_node_delay_cycle: u64,
        uids: &mut UidCounter,
    ) -> (r: Self)
        requires
            forall|j: int|
                0 <= j < groups@.len() ==> (#[trigger] groups@[j]).node@.installed_cpu > 0
                    && groups@[j].node@.installed_memory > 0,
            kubelet_sim_ids@.len() == amount_sum(groups@.map_values(|g: NodeGroup| group_view(g))),
        ensures
            r.wf(),
            r@ == (CAView {
                turned_on: false,
                kubelet_pool: kubelet_sim_ids@,
                free_nodes: groups_loaded(
                    Seq::empty(),
                    groups@.map_values(|g: NodeGroup| group_view(g)),
                    old(uids).peek(),
                ),
                used_nodes: Seq::empty(),
                low_utilization: Map::empty(),
                add_node_min_pending: add_node_min_pending,
                remove_node_delay_cycle: remove_node_delay_cycle,
            }),
            final(uids).peek() == advanced(old(uids).peek(), groups@.len()),
    {
        let ghost gs = groups@.map_values(|g: NodeGroup| group_view(g));
        let ghost start = uids.peek();
        let mut free: Vec<NodeGroup> = Vec::new();
        assert(free@.map_values(|x: NodeGroup| group_view(x)) =~= Seq::<GroupView>::empty());
        assert(gs.skip(0) =~= gs);
        let mut k: usize = 0;
        while k < groups.len()
            invariant
                gs == groups@.map_values(|g: NodeGroup| group_view(g)),
                k <= groups.len(),
                groups_sorted(free@.map_values(|x: NodeGroup| group_view(x))),
                groups_loaded(Seq::empty(), gs, start) == groups_loaded(
                    free@.map_values(|x: NodeGroup| group_view(x)),
                    gs.skip(k as int),
                    uids.peek(),
                ),
                uids.peek() == advanced(start, k as nat),
                forall|j: int|
                    0 <= j < groups@.len() ==> (#[trigger] groups@[j]).node@.installed_cpu > 0
                        && groups@[j].node@.installed_memory > 0,
                templates_installed(free@.map_values(|x: NodeGroup| group_view(x))),
                amount_sum(free@.map_values(|x: NodeGroup| group_view(x))) + amount_sum(gs.skip(k as int))
                    <= amount_sum(gs),
            decreases groups.len() - k,
        {
            let ghost f0 = free@.map_values(|x: NodeGroup| group_view(x));
            let ghost u0 = uids.peek();
            let mut node = groups[k].node.clone();
            node.prepare(uids);
            let g = NodeGroup { group_uid: groups[k].group_uid, amount: groups[k].amount, node };
            assert(group_view(g) == (gs[k as int].0, gs[k as int].1, prepared_node(gs[k as int].2, u0)));
            proof {
                let t = gs.skip(k as int);
                assert(t[0] == gs[k as int]);
                assert(t.drop_first() =~= gs.skip(k as int + 1));
                assert(t =~= t.drop_first().insert(0, t[0]));
                lemma_amount_sum_insert(t.drop_first(), 0, t[0]);
                lemma_group_added_sum(f0, group_view(g));
                lemma_advanced_step(start, k as nat);
            }
            proof {
                assert(groups@[k as int].node@.installed_cpu > 0);
                lemma_group_added_installed(f0, group_view(g));
            }
            Self::add_group(&mut free, g);
            k = k + 1;
        }
        proof {
            assert(gs.skip(groups@.len() as int) =~= Seq::<GroupView>::empty());
            lemma_amount_sum_nonneg(Seq::<GroupView>::empty());
        }
        CA {
            is_turned_on: false,
            kubelet_pool: kubelet_sim_ids,
            free_nodes: free,
            used_nodes: Vec::new(),
            low_utilization: HashMap::new(),
            add_node_min_pending,
            remove_node_delay_cycle,
        }
    }

    /// Whether the node with this uid was added by the autoscaler and is in use.
    fn is_used_node(&self, node_uid: u64) -> (r: Option<usize>)
        ensures
            match r {
                Some(i) => i < self@.used_nodes.len() && self@.used_nodes[i as int].0 == node_uid,
                None => !is_used(self@.used_nodes, node_uid),
            },
    {
        let mut i: usize = 0;
        while i < self.used_nodes.len()
            invariant
                i <= self.used_nodes.len(),
                forall|j: int| 0 <= j < i ==> (#[trigger] self.used_nodes@[j]).0 != node_uid,
            decreases self.used_nodes.len() - i,
        {
            if self.used_nodes[i].0 == node_uid {
                return Some(i);
            }
            i = i + 1;
        }
        None
    }

    /// Whether the template can take one of the requests.
    fn fits_any(node: &Node, requests: &Vec<(u64, u64)>) -> (r: bool)
        ensures
            r == exists|i: int|
                0 <= i < requests@.len() && node@.available_cpu >= (#[trigger] requests@[i]).0
                    && node@.available_memory >= requests@[i].1,
    {
        let mut i: usize = 0;
        while i < requests.len()
            invariant
                i <= requests.len(),
                forall|j: int|
                    0 <= j < i ==> !(node@.available_cpu >= (#[trigger] requests@[j]).0 && node@.available_memory
                        >= requests@[j].1),
            decreases requests.len() - i,
        {
            let (cpu, memory) = requests[i];
            if node.is_consumable(cpu, memory) {
                return true;
            }
            i = i + 1;
        }
        false
    }

    /// Puts a used node in uid order, replacing one of the same uid.
    fn add_used(&mut self, e: (u64, u64, u64))
        requires
            old(self).wf(),
            exists|j: int| 0 <= j < old(self)@.free_nodes.len() && (#[trigger] old(self)@.free_nodes[j]).0 == e.2,
        ensures
            final(self).wf(),
            final(self)@ == (CAView { used_nodes: used_added(old(self)@.used_nodes, e), ..old(self)@ }),
    {
        let ghost s = self.used_nodes@;
        let mut i: usize = 0;
        while i < self.used_nodes.len() && self.used_nodes[i].0 < e.0
            invariant
                i <= self.used_nodes.len(),
                s == self.used_nodes@,
                used_sorted(s),
                forall|j: int| 0 <= j < i ==> (#[trigger] s[j]).0 < e.0,
            decreases self.used_nodes.len() - i,
        {
            i = i + 1;
        }
        let replace = i < self.used_nodes.len() && self.used_nodes[i].0 == e.0;
        proof {
            if !replace {
                assert forall|j: int| i <= j < s.len() implies e.0 < (#[trigger] s[j]).0 by {
                    if j > i {
                        assert(s[i as int].0 < s[j].0);
                    }
                }
            }
            lemma_used_added_at(s, e, i as int, replace);
        }
        if replace {
            self.used_nodes.set(i, e);
        } else {
            self.used_nodes.insert(i, e);
        }
        proof {
            let t = self.used_nodes@;
            assert forall|a: int, b: int| 0 <= a < b < t.len() implies (#[trigger] t[a]).0 < (#[trigger] t[b]).0 by {
                if replace {
                    if a != i && b != i {
                        assert(t[a] == s[a] && t[b] == s[b]);
                    } else if a == i {
                        assert(t[b] == s[b]);
                        assert(s[a].0 < s[b].0);
                    } else {
                        assert(t[a] == s[a]);
                        assert(s[a].0 < s[b].0);
                    }
                } else {
                    if a < i && b < i {
                        assert(t[a] == s[a] && t[b] == s[b]);
                    } else if a < i && b == i {
                        assert(t[a] == s[a]);
                    } else if a < i && b > i {
                        assert(t[a] == s[a] && t[b] == s[b - 1]);
                    } else if a == i {
                        assert(t[b] == s[b - 1]);
                    } else {
                        assert(t[a] == s[a - 1] && t[b] == s[b - 1]);
                    }
                }
            }
            let f = self@.free_nodes;
            assert forall|a: int| 0 <= a < t.len() implies exists|j: int|
                0 <= j < f.len() && (#[trigger] f[j]).0 == (#[trigger] t[a]).2 by {
                if replace {
                    if a != i {
                        assert(t[a] == s[a]);
                    }
                } else if a < i {
                    assert(t[a] == s[a]);
                } else if a > i {
                    assert(t[a] == s[a - 1]);
                }
            }
        }
    }

    /// Reads the metrics the scheduler gathered: `node_info` tells for each
    /// node whether both its CPU and memory use are at or below the removal
    /// thresholds, `requests` are the requests of the pods pending for lack
    /// of resources, `insufficient_pending` their number. Used nodes reported
    /// low for long enough are asked to be removed. With enough such pods
    /// pending, a node of the first free group (in uid order) that can take
    /// one of the requests is readied and added, with an idle kubelet.
    pub fn process_metrics(
        &mut self,
        insufficient_pending: u64,
        requests: &Vec<(u64, u64)>,
        node_info: &Vec<(u64, bool)>,
        uids: &mut UidCounter,
    ) -> (r: CAOutcome)
        requires
            old(self).wf(),
        ensures
            final(self).wf(),
            final(self)@.low_utilization == low_after(old(self)@.low_utilization, old(self)@.used_nodes, node_info@),
            r.remove_nodes@ == removal_requests(
                old(self)@.low_utilization,
                old(self)@.used_nodes,
                node_info@,
                old(self)@.remove_node_delay_cycle,
            ),
            final(self)@.turned_on == old(self)@.turned_on,
            final(self)@.add_node_min_pending == old(self)@.add_node_min_pending,
            final(self)@.remove_node_delay_cycle == old(self)@.remove_node_delay_cycle,
            (insufficient_pending < old(self)@.add_node_min_pending || no_group_fits(old(self)@.free_nodes, requests@))
                ==> {
                &&& r.added is None
                &&& final(self)@.free_nodes == old(self)@.free_nodes
                &&& final(self)@.kubelet_pool == old(self)@.kubelet_pool
                &&& final(self)@.used_nodes == old(self)@.used_nodes
                &&& final(uids).peek() == old(uids).peek()
            },
            forall|i: int|
                insufficient_pending >= old(self)@.add_node_min_pending && #[trigger] is_best_group(
                    old(self)@.free_nodes,
                    requests@,
                    i,
                ) ==> {
                    let g = old(self)@.free_nodes[i];
                    &&& r.added is Some
                    &&& r.added->0.kubelet_sim_id == old(self)@.kubelet_pool.last()
                    &&& r.added->0.group_uid == g.0
                    &&& r.added->0.node@ == prepared_node(g.2, old(uids).peek())
                    &&& final(self)@ == (CAView {
                        low_utilization: low_after(old(self)@.low_utilization, old(self)@.used_nodes, node_info@),
                        ..node_taken(old(self)@, i, old(uids).peek())
                    })
                    &&& final(uids).peek() == next_of(old(uids).peek())
                },
    {
        let ghost info = node_info@;
        let ghost used = self@.used_nodes;
        let ghost delay = self.remove_node_delay_cycle;
        let mut remove_nodes: Vec<u64> = Vec::new();
        let mut k: usize = 0;
        assert(info.skip(0) =~= info);
        assert(remove_nodes@ + removal_requests(self@.low_utilization, used, info, delay) =~= removal_requests(
            self@.low_utilization,
            used,
            info,
            delay,
        ));
        while k < node_info.len()
            invariant
                self.wf(),
                info == node_info@,
                used == self@.used_nodes,
                delay == self@.remove_node_delay_cycle,
                self@.free_nodes == old(self)@.free_nodes,
                self@.kubelet_pool == old(self)@.kubelet_pool,
                self@.turned_on == old(self)@.turned_on,
                self@.add_node_min_pending == old(self)@.add_node_min_pending,
                used == old(self)@.used_nodes,
                delay == old(self)@.remove_node_delay_cycle,
                k <= node_info.len(),
                low_after(old(self)@.low_utilization, used, info) == low_after(
                    self@.low_utilization,
                    used,
                    info.skip(k as int),
                ),
                removal_requests(old(self)@.low_utilization, used, info, delay) == remove_nodes@
                    + removal_requests(self@.low_utilization, used, info.skip(k as int), delay),
            decreases node_info.len() - k,
        {
            let (uid, is_low) = node_info[k];
            let ghost low0 = self@.low_utilization;
            let ghost rest = info.skip(k as int);
            assert(rest[0] == (uid, is_low));
            assert(rest.drop_first() =~= info.skip(k as int + 1));
            if is_low && self.is_used_node(uid).is_some() {
                let c: u64 = match self.low_utilization.get(&uid) {
                    Some(c) => *c,
                    None => 0,
                };
                let b: u64 = if c == u64::MAX {
                    c
                } else {
                    c + 1
                };
                assert(b == bumped(low0, uid));
                self.low_utilization.insert(uid, b);
                if b >= self.remove_node_delay_cycle {
                    let ghost prev = remove_nodes@;
                    remove_nodes.push(uid);
                    assert(prev + removal_requests(low0, used, rest, delay) =~= remove_nodes@ + removal_requests(
                        self@.low_utilization,
                        used,
                        info.skip(k as int + 1),
                        delay,
                    ));
                } else {
                    assert(removal_requests(low0, used, rest, delay) =~= removal_requests(
                        self@.low_utilization,
                        used,
                        info.skip(k as int + 1),
                        delay,
                    ));
                }
            }
            k = k + 1;
        }
        assert(info.skip(k as int) =~= Seq::<(u64, bool)>::empty());
        assert(remove_nodes@ =~= remove_nodes@ + Seq::<u64>::empty());
        if insufficient_pending < self.add_node_min_pending {
            return CAOutcome { remove_nodes, added: None };
        }
        let ghost free = self@.free_nodes;
        let mut i: usize = 0;
        let mut found = false;
        while i < self.free_nodes.len()
            invariant_except_break
                free == self@.free_nodes,
                !found,
                i <= self.free_nodes.len(),
                forall|j: int| 0 <= j < i ==> !group_fits(#[trigger] free[j], requests@),
            ensures
                free == self@.free_nodes,
                found ==> is_best_group(free, requests@, i as int),
                !found ==> no_group_fits(free, requests@),
            decreases self.free_nodes.len() - i,
        {
            assert(free[i as int] == group_view(self.free_nodes@[i as int]));
            if self.free_nodes[i].amount > 0 && Self::fits_any(&self.free_nodes[i].node, requests) {
                found = true;
                break;
            }
            i = i + 1;
        }
        if !found {
            return CAOutcome { remove_nodes, added: None };
        }
        let ghost g = free[i as int];
        let ghost pool0 = self@.kubelet_pool;
        let ghost u0 = uids.peek();
        proof {
            lemma_amount_sum_at_least(free, i as int);
            lemma_amount_sum_update(free, i as int, (g.0, (g.1 - 1) as u64, g.2));
            assert(templates_installed(free));
            assert(free[i as int].2.installed_cpu > 0);
        }
        let template = self.free_nodes[i].node.clone();
        let group_uid = self.free_nodes[i].group_uid;
        let amount = self.free_nodes[i].amount;
        let mut node = template.clone();
        let left = NodeGroup { group_uid, amount: amount - 1, node: template };
        self.free_nodes.set(i, left);
        proof {
            let f1 = self@.free_nodes;
            assert(f1 =~= free.update(i as int, (g.0, (g.1 - 1) as u64, g.2)));
            assert(templates_installed(f1)) by {
                assert forall|j: int| 0 <= j < f1.len() implies (#[trigger] f1[j]).2.installed_cpu > 0
                    && f1[j].2.installed_memory > 0 by {
                    assert(f1[j].2 == free[j].2);
                }
            }
            assert(groups_sorted(f1)) by {
                assert forall|a: int, b: int| 0 <= a < b < f1.len() implies (#[trigger] f1[a]).0
                    < (#[trigger] f1[b]).0 by {
                    assert(f1[a].0 == free[a].0 && f1[b].0 == free[b].0);
                }
            }
            assert forall|a: int| 0 <= a < used.len() implies exists|j: int|
                0 <= j < f1.len() && (#[trigger] f1[j]).0 == (#[trigger] used[a]).2 by {
                let j = choose|j: int| 0 <= j < free.len() && (#[trigger] free[j]).0 == used[a].2;
                assert(f1[j].0 == free[j].0);
            }
        }
        let kubelet_sim_id = self.kubelet_pool.pop().unwrap();
        node.prepare(uids);
        let node_uid = node.metadata.uid;
        proof {
            assert(self@.free_nodes[i as int].0 == group_uid);
        }
        self.add_used((node_uid, kubelet_sim_id, group_uid));
        proof {
            assert forall|j: int| is_best_group(free, requests@, j) implies j == i by {
                if j < i {
                    assert(!group_fits(free[j], requests@));
                } else if j > i {
                    assert(!group_fits(free[i as int], requests@));
                }
            }
        }
        CAOutcome { remove_nodes, added: Some(AddedNode { kubelet_sim_id, group_uid, node }) }
    }

    /// The kubelet of a removed node returns to the pool, its group gets the
    /// node back, and its low-utilization count is dropped.
    pub fn commit_node_remove(&mut self, node_uid: u64)
        requires
            old(self).wf(),
            is_used(old(self)@.used_nodes, node_uid),
        ensures
            final(self).wf(),
            final(self)@ == after_remove(old(self)@, node_uid),
    {
        let i = self.is_used_node(node_uid).unwrap();
        let ghost used = self@.used_nodes;
        let ghost free = self@.free_nodes;
        proof {
            let ii = used_index(used, node_uid);
            assert(used[ii].0 == node_uid);
            if ii != i {
                if ii < i {
                    assert(used[ii].0 < used[i as int].0);
                } else {
                    assert(used[i as int].0 < used[ii].0);
                }
            }
        }
        let e = self.used_nodes.remove(i);
        self.kubelet_pool.push(e.1);
        let mut j: usize = 0;
        while j < self.free_nodes.len() && self.free_nodes[j].group_uid != e.2
            invariant
                j <= self.free_nodes.len(),
                free == self@.free_nodes,
                forall|a: int| 0 <= a < j ==> (#[trigger] free[a]).0 != e.2,
            decreases self.free_nodes.len() - j,
        {
            j = j + 1;
        }
        proof {
            let jw = choose|jw: int| 0 <= jw < free.len() && (#[trigger] free[jw]).0 == used[i as int].2;
            assert(jw >= j);
            assert(j < free.len());
            assert(free[j as int].0 == e.2);
            let jj = group_index(free, e.2);
            assert(free[jj].0 == e.2);
            if jj != j {
                if jj < j {
                    assert(free[jj].0 < free[j as int].0);
                } else {
                    assert(free[j as int].0 < free[jj].0);
                }
            }
            lemma_amount_sum_update(free, j as int, (free[j as int].0, if free[j as int].1 == u64::MAX {
                free[j as int].1
            } else {
                (free[j as int].1 + 1) as u64
            }, free[j as int].2));
        }
        let template = self.free_nodes[j].node.clone();
        let group_uid = self.free_nodes[j].group_uid;
        let amount = self.free_nodes[j].amount.saturating_add(1);
        self.free_nodes.set(j, NodeGroup { group_uid, amount, node: template });
        self.low_utilization.remove(&node_uid);
        proof {
            let f1 = self@.free_nodes;
            let u1 = self@.used_nodes;
            assert(f1 =~= free.update(j as int, (free[j as int].0, amount, free[j as int].2)));
            assert(templates_installed(f1)) by {
                assert forall|a: int| 0 <= a < f1.len() implies (#[trigger] f1[a]).2.installed_cpu > 0
                    && f1[a].2.installed_memory > 0 by {
                    assert(f1[a].2 == free[a].2);
                }
            }
            assert(groups_sorted(f1)) by {
                assert forall|a: int, b: int| 0 <= a < b < f1.len() implies (#[trigger] f1[a]).0
                    < (#[trigger] f1[b]).0 by {
                    assert(f1[a].0 == free[a].0 && f1[b].0 == free[b].0);
                }
            }
            assert(used_sorted(u1)) by {
                assert forall|a: int, b: int| 0 <= a < b < u1.len() implies (#[trigger] u1[a]).0
                    < (#[trigger] u1[b]).0 by {
                    let aa = if a < i { a } else { a + 1 };
                    let bb = if b < i { b } else { b + 1 };
                    assert(u1[a] == used[aa] && u1[b] == used[bb]);
                }
            }
            assert forall|a: int| 0 <= a < u1.len() implies exists|b: int|
                0 <= b < f1.len() && (#[trigger] f1[b]).0 == (#[trigger] u1[a]).2 by {
                let aa = if a < i { a } else { a + 1 };
                assert(u1[a] == used[aa]);
                let b = choose|b: int| 0 <= b < free.len() && (#[trigger] free[b]).0 == used[aa].2;
                assert(f1[b].0 == free[b].0);
            }
        }
    }

    pub fn is_turned_on(&self) -> (r: bool)
        ensures
            r == self@.turned_on,
    {
        self.is_turned_on
    }

    /// Whether the node with this uid was added by the autoscaler and is in use.
    pub fn uses_node(&self, node_uid: u64) -> (r: bool)
        ensures
            r == is_used(self@.used_nodes, node_uid),
    {
        self.is_used_node(node_uid).is_some()
    }

    /// Turns the autoscaler on, telling whether it was off (its periodic
    /// update must then start).
    pub fn turn_on(&mut self) -> (r: bool)
        requires
            old(self).wf(),
        ensures
            final(self).wf(),
            r == !old(self)@.turned_on,
            final(self)@ == (CAView { turned_on: true, ..old(self)@ }),
    {
        if !self.is_turned_on {
            self.is_turned_on = true;
            assert(self@.free_nodes =~= old(self)@.free_nodes);
            assert(self@.used_nodes =~= old(self)@.used_nodes);
            true
        } else {
            false
        }
    }

    /// Turns the autoscaler off, telling whether it was on (its pending
    /// updates must then be cancelled).
    pub fn turn_off(&mut self) -> (r: bool)
        requires
            old(self).wf(),
        ensures
            final(self).wf(),
            r == old(self)@.turned_on,
            final(self)@ == (CAView { turned_on: false, ..old(self)@ }),
    {
        if self.is_turned_on {
            self.is_turned_on = false;
            assert(self@.free_nodes =~= old(self)@.free_nodes);
            assert(self@.used_nodes =~= old(self)@.used_nodes);
            true
        } else {
            false
        }
    }

    /// The uids of the used nodes, in increasing order, for which the
    /// periodic update asks metrics. The autoscaler must be on.
    pub fn self_update(&self) -> (r: Vec<u64>)
        requires
            self@.turned_on,
        ensures
            r@ == self@.used_nodes.map_values(|e: (u64, u64, u64)| e.0),
    {
        let mut r: Vec<u64> = Vec::new();
        let mut i: usize = 0;
        while i < self.used_nodes.len()
            invariant
                i <= self.used_nodes.len(),
                r@ == self@.used_nodes.take(i as int).map_values(|e: (u64, u64, u64)| e.0),
            decreases self.used_nodes.len() - i,
        {
            r.push(self.used_nodes[i].0);
            assert(self@.used_nodes.take(i as int + 1) =~= self@.used_nodes.take(i as int).push(
                self@.used_nodes[i as int],
            ));
            assert(r@ =~= self@.used_nodes.take(i as int + 1).map_values(|e: (u64, u64, u64)| e.0));
            i = i + 1;
        }
        assert(self@.used_nodes.take(i as int) =~= self@.used_nodes);
        r
    }
}

/// Where a node uid that is not used goes in the used nodes' order.
proof fn lemma_insertion_point(s: Seq<(u64, u64, u64)>, x: u64) -> (k: int)
    requires
        used_sorted(s),
        !is_used(s, x),
    ensures
        0 <= k <= s.len(),
        forall|j: int| 0 <= j < k ==> (#[trigger] s[j]).0 < x,
        forall|j: int| k <= j < s.len() ==> x < (#[trigger] s[j]).0,
    decreases s.len(),
{
    if s.len() == 0 {
        0
    } else if x < s[0].0 {
        assert forall|j: int| 0 <= j < s.len() implies x < (#[trigger] s[j]).0 by {
            if j > 0 {
                assert(s[0].0 < s[j].0);
            }
        }
        0
    } else {
        let t = s.drop_first();
        assert(s[0].0 != x);
        assert(!is_used(t, x)) by {
            if is_used(t, x) {
                let j = choose|j: int| 0 <= j < t.len() && (#[trigger] t[j]).0 == x;
                assert(s[j + 1].0 == x);
            }
        }
        let k = lemma_insertion_point(t, x);
        assert forall|j: int| 0 <= j < k + 1 implies (#[trigger] s[j]).0 < x by {
            if j > 0 {
                assert(s[j] == t[j - 1]);
            }
        }
        assert forall|j: int| k + 1 <= j < s.len() implies x < (#[trigger] s[j]).0 by {
            assert(s[j] == t[j - 1]);
        }
        k + 1
    }
}

/// A node the autoscaler adds and then removes leaves it as it was.
/// `process_metrics` takes the node as `node_taken` says, and
/// `commit_node_remove` removes it as `after_remove` says; after both, the
/// group has its node count back, the same kubelet is back at the end of the
/// pool, the used nodes are those of before, and the node has no
/// low-utilization count. This holds where the new node's uid was not in use
/// (the uid counter can wrap around).
pub proof fn lemma_add_then_remove(v: CAView, i: int, node_uid: u64)
    requires
        v.wf(),
        0 <= i < v.free_nodes.len(),
        v.free_nodes[i].1 > 0,
        !is_used(v.used_nodes, node_uid),
    ensures
        after_remove(node_taken(v, i, node_uid), node_uid) == (CAView {
            low_utilization: v.low_utilization.remove(node_uid),
            ..v
        }),
        node_taken(v, i, node_uid).free_nodes[i].1 == v.free_nodes[i].1 - 1,
        node_taken(v, i, node_uid).kubelet_pool.len() == v.kubelet_pool.len() - 1,
        is_used(node_taken(v, i, node_uid).used_nodes, node_uid),
        after_remove(node_taken(v, i, node_uid), node_uid).free_nodes[i].1 == v.free_nodes[i].1,
        after_remove(node_taken(v, i, node_uid), node_uid).kubelet_pool == v.kubelet_pool,
        after_remove(node_taken(v, i, node_uid), node_uid).used_nodes == v.used_nodes,
        !is_used(after_remove(node_taken(v, i, node_uid), node_uid).used_nodes, node_uid),
        !after_remove(node_taken(v, i, node_uid), node_uid).low_utilization.contains_key(node_uid),
{
    let g = v.free_nodes[i];
    let a = node_taken(v, i, node_uid);
    lemma_amount_sum_at_least(v.free_nodes, i);
    assert(v.kubelet_pool.len() > 0);
    let e = (node_uid, v.kubelet_pool.last(), g.0);
    let k = lemma_insertion_point(v.used_nodes, node_uid);
    lemma_used_added_at(v.used_nodes, e, k, false);
    assert(a.used_nodes == v.used_nodes.insert(k, e));
    assert(a.used_nodes[k] == e);
    let ui = used_index(a.used_nodes, node_uid);
    assert(ui == k) by {
        assert(0 <= k < a.used_nodes.len() && a.used_nodes[k].0 == node_uid);
        if ui < k {
            assert(a.used_nodes[ui] == v.used_nodes[ui]);
        } else if ui > k {
            assert(a.used_nodes[ui] == v.used_nodes[ui - 1]);
        }
    }
    assert(a.used_nodes.remove(k) =~= v.used_nodes);
    let gj = group_index(a.free_nodes, g.0);
    assert(gj == i) by {
        assert(0 <= i < a.free_nodes.len() && a.free_nodes[i].0 == g.0);
        if gj != i {
            assert(a.free_nodes[gj] == v.free_nodes[gj]);
            if gj < i {
                assert(v.free_nodes[gj].0 < v.free_nodes[i].0);
            } else {
                assert(v.free_nodes[i].0 < v.free_nodes[gj].0);
            }
        }
    }
    assert(a.free_nodes.update(i, (g.0, (g.1 - 1 + 1) as u64, g.2)) =~= v.free_nodes);
    assert(a.kubelet_pool.push(e.1) =~= v.kubelet_pool);
}

} // verus!
