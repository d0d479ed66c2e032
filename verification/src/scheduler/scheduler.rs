use vstd::prelude::*;
use vstd::std_specs::iter::IteratorSpec;
use std::collections::{HashMap, HashSet};
use crate::objects::node::{Node, NodeView};
use crate::objects::pod::{Pod, PodPhase, PodView};
use crate::scheduler::active_queue::TraitActiveQCmp;
use crate::scheduler::backoff_queue::{holds_pod, TraitBackOffQ};
use crate::scheduler::filter::{
    filter_always_false, filter_always_true, filter_node_selector,
    filter_requested_resources_available, filter_taints_tolerations, no_schedule_taints_tolerated,
    node_selector_holds,
};
use crate::scheduler::node_index::{indexable, NodeRTree, INDEX_LIMIT};
use crate::scheduler::queues::active_queue::ActiveMaxQ;

verus! {

broadcast use vstd::std_specs::hash::group_hash_axioms;

/// CPU requested by the running pods of the list.
pub open spec fn used_cpu(pods: Seq<u64>, running: Map<u64, PodView>) -> int
    decreases pods.len(),
{
    if pods.len() == 0 {
        0
    } else {
        used_cpu(pods.drop_last(), running) + running[pods.last()].request_cpu
    }
}

/// Memory requested by the running pods of the list.
pub open spec fn used_memory(pods: Seq<u64>, running: Map<u64, PodView>) -> int
    decreases pods.len(),
{
    if pods.len() == 0 {
        0
    } else {
        used_memory(pods.drop_last(), running) + running[pods.last()].request_memory
    }
}

proof fn lemma_used_frame(pods: Seq<u64>, a: Map<u64, PodView>, b: Map<u64, PodView>)
    requires
        forall|i: int| 0 <= i < pods.len() ==> #[trigger] a[pods[i]] == b[pods[i]],
    ensures
        used_cpu(pods, a) == used_cpu(pods, b),
        used_memory(pods, a) == used_memory(pods, b),
    decreases pods.len(),
{
    if pods.len() > 0 {
        assert(a[pods[pods.len() - 1]] == b[pods[pods.len() - 1]]);
        assert forall|i: int| 0 <= i < pods.drop_last().len() implies #[trigger] a[pods.drop_last()[i]]
            == b[pods.drop_last()[i]] by {
            assert(pods.drop_last()[i] == pods[i]);
        }
        lemma_used_frame(pods.drop_last(), a, b);
    }
}

proof fn lemma_used_remove(pods: Seq<u64>, m: Map<u64, PodView>, i: int)
    requires
        0 <= i < pods.len(),
    ensures
        used_cpu(pods.remove(i), m) == used_cpu(pods, m) - m[pods[i]].request_cpu,
        used_memory(pods.remove(i), m) == used_memory(pods, m) - m[pods[i]].request_memory,
    decreases pods.len(),
{
    if i == pods.len() - 1 {
        assert(pods.remove(i) =~= pods.drop_last());
    } else {
        lemma_used_remove(pods.drop_last(), m, i);
        assert(pods.remove(i).drop_last() =~= pods.drop_last().remove(i));
        assert(pods.remove(i).last() == pods.last());
    }
}

proof fn lemma_used_at_least(pods: Seq<u64>, m: Map<u64, PodView>, i: int)
    requires
        0 <= i < pods.len(),
    ensures
        used_cpu(pods, m) >= m[pods[i]].request_cpu,
        used_memory(pods, m) >= m[pods[i]].request_memory,
{
    lemma_used_remove(pods, m, i);
    lemma_used_nonneg(pods.remove(i), m);
}

proof fn lemma_used_nonneg(pods: Seq<u64>, m: Map<u64, PodView>)
    ensures
        used_cpu(pods, m) >= 0,
        used_memory(pods, m) >= 0,
    decreases pods.len(),
{
    if pods.len() > 0 {
        lemma_used_nonneg(pods.drop_last(), m);
    }
}

/// A filter of the scheduling pipeline.
#[derive(Debug, Clone, Copy, PartialEq, Eq, Structural)]
pub enum FilterPlugin {
    AlwaysTrue,
    AlwaysFalse,
    NodeSelector,
    RequestedResourcesAvailable,
    TaintsTolerations,
}

/// Whether a filter accepts a node for a pod.
pub open spec fn filter_accepts(f: FilterPlugin, pod: PodView, node: NodeView) -> bool {
    match f {
        FilterPlugin::AlwaysTrue => true,
        FilterPlugin::AlwaysFalse => true,
        FilterPlugin::NodeSelector => node_selector_holds(pod.node_selector, node.labels),
        FilterPlugin::RequestedResourcesAvailable => node.available_cpu >= pod.request_cpu
            && node.available_memory >= pod.request_memory,
        FilterPlugin::TaintsTolerations => no_schedule_taints_tolerated(pod.tolerations, node.taints),
    }
}

/// Every filter of the list accepts the node for the pod.
pub open spec fn passes_filters(filters: Seq<FilterPlugin>, pod: PodView, node: NodeView) -> bool {
    forall|i: int| 0 <= i < filters.len() ==> #[trigger] filter_accepts(filters[i], pod, node)
}

impl FilterPlugin {
    pub fn filter(
        &self,
        running_pods: &HashMap<u64, Pod>,
        pending_pods: &HashMap<u64, Pod>,
        nodes: &HashMap<u64, Node>,
        pod: &Pod,
        node: &Node,
    ) -> (r: bool)
        ensures
            r == filter_accepts(*self, pod@, node@),
    {
        match self {
            FilterPlugin::AlwaysTrue => filter_always_true(running_pods, pending_pods, nodes, pod, node),
            FilterPlugin::AlwaysFalse => filter_always_false(running_pods, pending_pods, nodes, pod, node),
            FilterPlugin::NodeSelector => filter_node_selector(running_pods, pending_pods, nodes, pod, node),
            FilterPlugin::RequestedResourcesAvailable => filter_requested_resources_available(
                running_pods,
                pending_pods,
                nodes,
                pod,
                node,
            ),
            FilterPlugin::TaintsTolerations => filter_taints_tolerations(
                running_pods,
                pending_pods,
                nodes,
                pod,
                node,
            ),
        }
    }
}

/// The accounting of a node agrees with the running pods placed on it.
pub open spec fn node_consistent(node: NodeView, m: u64, running: Map<u64, PodView>) -> bool {
    &&& node.uid == m
    &&& indexable(node)
    &&& node.installed_cpu < INDEX_LIMIT
    &&& node.installed_memory < INDEX_LIMIT
    &&& node.pods.no_duplicates()
    &&& forall|i: int|
        0 <= i < node.pods.len() ==> running.contains_key(#[trigger] node.pods[i]) && running[node.pods[i]].node_uid
            == Some(m)
    &&& node.available_cpu <= node.installed_cpu
    &&& node.available_memory <= node.installed_memory
    &&& node.installed_cpu - node.available_cpu == used_cpu(node.pods, running)
    &&& node.installed_memory - node.available_memory == used_memory(node.pods, running)
}

/// How many pods a scheduling cycle may still place, and try.
#[derive(Debug, Clone, Copy)]
pub struct CycleBudget {
    pub scheduled_left: u64,
    pub try_left: u64,
}

/// A configured per-cycle limit; 0 stands for no limit.
pub open spec fn cycle_limit(configured: u64) -> u64 {
    if configured == 0 {
        u64::MAX
    } else {
        configured
    }
}

/// Reading a configured limit twice reads it as once: a limit already read
/// (a zero become the largest) stays as it is.
pub proof fn lemma_cycle_limit_idempotent(configured: u64)
    ensures
        cycle_limit(cycle_limit(configured)) == cycle_limit(configured),
{
}

impl CycleBudget {
    /// The budget of a cycle from the configured limits on pods placed and
    /// pods tried; a limit of 0 means no limit.
    pub fn from_limits(max_scheduled: u64, max_to_try: u64) -> (r: Self)
        ensures
            r.scheduled_left == cycle_limit(max_scheduled),
            r.try_left == cycle_limit(max_to_try),
    {
        CycleBudget {
            scheduled_left: if max_scheduled == 0 {
                u64::MAX
            } else {
                max_scheduled
            },
            try_left: if max_to_try == 0 {
                u64::MAX
            } else {
                max_to_try
            },
        }
    }
}

/// The scores of each scorer, by candidate.
pub open spec fn score_rows(scores: Seq<Vec<i64>>) -> Seq<Seq<i64>> {
    scores.map_values(|v: Vec<i64>| v@)
}

/// The weighted score of candidate `j` over the first `k` scorers.
pub open spec fn weighted_total(scores: Seq<Seq<i64>>, weights: Seq<i64>, j: int, k: int) -> int
    decreases k,
{
    if k <= 0 {
        0
    } else {
        weighted_total(scores, weights, j, k - 1) + scores[k - 1][j] * weights[k - 1]
    }
}

/// Every product and running sum in the weighted score of candidate `j`
/// fits in an `i64`.
pub open spec fn weighted_total_fits(scores: Seq<Seq<i64>>, weights: Seq<i64>, j: int) -> bool {
    forall|k: int|
        1 <= k <= weights.len() ==> i64::MIN <= #[trigger] (scores[k - 1][j] * weights[k - 1]) <= i64::MAX
            && i64::MIN <= weighted_total(scores, weights, j, k) <= i64::MAX
}

/// The weighted total score of each of `n` candidates: the sum over the
/// scorers of score times the scorer's weight. None when a product or a
/// running sum overflows an `i64`.
pub fn weighted_totals(scores: &Vec<Vec<i64>>, weights: &Vec<i64>, n: usize) -> (r: Option<Vec<i64>>)
    requires
        scores.len() == weights.len(),
        forall|i: int| 0 <= i < scores.len() ==> (#[trigger] scores@[i])@.len() == n,
    ensures
        r is Some <==> forall|j: int| 0 <= j < n ==> #[trigger] weighted_total_fits(
            score_rows(scores@),
            weights@,
            j,
        ),
        r is Some ==> r->0@.len() == n && forall|j: int|
            0 <= j < n ==> #[trigger] r->0@[j] == weighted_total(score_rows(scores@), weights@, j, weights@.len() as int),
{
    let ghost sc = score_rows(scores@);
    let mut totals: Vec<i64> = Vec::new();
    let mut j: usize = 0;
    while j < n
        invariant
            sc == score_rows(scores@),
            scores.len() == weights.len(),
            forall|i: int| 0 <= i < scores.len() ==> (#[trigger] scores@[i])@.len() == n,
            j <= n,
            totals@.len() == j,
            forall|a: int| 0 <= a < j ==> #[trigger] weighted_total_fits(sc, weights@, a),
            forall|a: int| 0 <= a < j ==> #[trigger] totals@[a] == weighted_total(sc, weights@, a, weights@.len() as int),
        decreases n - j,
    {
        let mut acc: i64 = 0;
        let mut k: usize = 0;
        while k < weights.len()
            invariant
                sc == score_rows(scores@),
                scores.len() == weights.len(),
                forall|i: int| 0 <= i < scores.len() ==> (#[trigger] scores@[i])@.len() == n,
                j < n,
                k <= weights.len(),
                acc == weighted_total(sc, weights@, j as int, k as int),
                forall|m: int|
                    1 <= m <= k ==> i64::MIN <= #[trigger] (sc[m - 1][j as int] * weights@[m - 1]) <= i64::MAX
                        && i64::MIN <= weighted_total(sc, weights@, j as int, m) <= i64::MAX,
            decreases weights.len() - k,
        {
            assert(sc[k as int] == scores@[k as int]@);
            let product = scores[k][j].checked_mul(weights[k]);
            match product {
                None => {
                    proof {
                        assert(!weighted_total_fits(sc, weights@, j as int)) by {
                            assert(!(i64::MIN <= sc[k as int][j as int] * weights@[k as int] <= i64::MAX));
                            let m = k as int + 1;
                            assert(sc[m - 1][j as int] * weights@[m - 1] == sc[k as int][j as int] * weights@[k as int]);
                        }
                    }
                    return None;
                },
                Some(p) => {
                    match acc.checked_add(p) {
                        None => {
                            proof {
                                assert(!weighted_total_fits(sc, weights@, j as int)) by {
                                    let m = k as int + 1;
                                    assert(weighted_total(sc, weights@, j as int, m) == acc + p);
                                }
                            }
                            return None;
                        },
                        Some(s) => {
                            acc = s;
                        },
                    }
                },
            }
            k = k + 1;
        }
        totals.push(acc);
        j = j + 1;
    }
    Some(totals)
}

/// The outcome of one step of a scheduling cycle.
#[derive(Debug)]
pub enum ScheduleStep {
    /// The cycle is over: the active queue is empty or the budget spent.
    Finished,
    /// No node passed the filters. On a first failure the pod gets a second
    /// chance (`second_chance`); afterwards it waits in the back-off queue.
    Unschedulable { pod_uid: u64, second_chance: bool },
    /// These nodes passed the filters; they are to be scored, and `place`
    /// called with their weighted totals.
    Candidates { pod: Pod, nodes: Vec<Node> },
}

/// The pod a scheduling step leaves owed a second chance, if any.
pub open spec fn owed_by(r: ScheduleStep) -> Option<u64> {
    match r {
        ScheduleStep::Unschedulable { pod_uid, second_chance } => if second_chance {
            Some(pod_uid)
        } else {
            None
        },
        _ => None,
    }
}

/// A running pod to be taken off the node it runs on: the scheduler reports
/// the pod to the API server with the node and the phase it is to take.
#[derive(Debug)]
pub struct Preemption {
    pub pod: Pod,
    pub node_uid: u64,
    pub new_phase: PodPhase,
}

/// A pod placed on a node, with the resources taken from the node.
#[derive(Debug)]
pub struct Placement {
    pub pod: Pod,
    pub node_uid: u64,
    pub cpu: u64,
    pub memory: u64,
}

/// The scheduler's cache of the cluster and its queues.
pub struct Scheduler<C: TraitActiveQCmp, B: TraitBackOffQ> {
    running_pods: HashMap<u64, Pod>,
    pending_pods: HashMap<u64, Pod>,
    node_rtree: NodeRTree,
    known_nodes: HashSet<u64>,
    active_queue: ActiveMaxQ<C>,
    backoff_queue: B,
    failed_attempts: HashMap<u64, u64>,
    removed_pod: HashSet<u64>,
    filters: Vec<FilterPlugin>,
    self_update_enabled: bool,
    current: Option<Pod>,
    candidates: Vec<Node>,
}

impl<C: TraitActiveQCmp, B: TraitBackOffQ> Scheduler<C, B> {
    /// Running pods, by uid.
    pub closed spec fn running(&self) -> Map<u64, PodView> {
        self.running_pods@.map_values(|p: Pod| p@)
    }

    /// Pending pods, by uid.
    pub closed spec fn pending(&self) -> Map<u64, PodView> {
        self.pending_pods@.map_values(|p: Pod| p@)
    }

    /// Known nodes, by uid.
    pub closed spec fn nodes(&self) -> Map<u64, NodeView> {
        self.node_rtree.view()
    }

    /// Uids of every node ever added.
    pub closed spec fn known_node_uids(&self) -> Set<u64> {
        self.known_nodes@
    }

    /// Pods waiting in the active queue, by increasing rank.
    pub closed spec fn active(&self) -> Seq<PodView> {
        self.active_queue.view()
    }

    /// Entries `(exit time, pod uid)` of the back-off queue.
    pub closed spec fn backoff(&self) -> Seq<(u64, u64)> {
        self.backoff_queue.entries()
    }

    /// Failed scheduling attempts, by pod uid.
    pub closed spec fn attempts(&self) -> Map<u64, u64> {
        self.failed_attempts@
    }

    /// Pods the API server removed while the scheduler held them.
    pub closed spec fn removed(&self) -> Set<u64> {
        self.removed_pod@
    }

    /// How long the back-off queue keeps a pod with this many failed attempts.
    pub closed spec fn backoff_timeout(&self, failed_attempts: u64) -> u64 {
        self.backoff_queue.timeout(failed_attempts)
    }

    pub closed spec fn filter_list(&self) -> Seq<FilterPlugin> {
        self.filters@
    }

    pub closed spec fn self_update(&self) -> bool {
        self.self_update_enabled
    }

    /// A pod is between `next_step` and `place`.
    pub closed spec fn placing(&self) -> bool {
        self.current is Some
    }

    /// The pod being placed and the nodes it may go to.
    pub closed spec fn placing_pod(&self) -> PodView {
        self.current->0@
    }

    pub closed spec fn placing_candidates(&self) -> Seq<NodeView> {
        self.candidates@.map_values(|n: Node| n@)
    }

    /// The uids of the pods the scheduler holds, pending or running.
    pub open spec fn pod_uids(&self) -> Set<u64> {
        self.pending().dom().union(self.running().dom())
    }

    /// Pod `u` takes part in the scheduling cycle: it is pending, and in the
    /// active queue, in the back-off queue, or the pod being placed.
    pub open spec fn in_cycle(self, u: u64) -> bool {
        &&& self.pending().contains_key(u)
        &&& self.active_has(u) || holds_pod(self.backoff(), u) || (self.placing() && self.placing_pod().uid == u)
    }

    /// Pod `u` is pending and waits outside the queues (for a second chance).
    pub open spec fn idle(self, u: u64) -> bool {
        self.pending().contains_key(u) && !self.in_cycle(u)
    }

    /// From `a` to `b` no pod is lost: a pod in the cycle stays in it, unless
    /// it is owed a second chance (and stays pending), was placed, or was
    /// dropped; a pod waiting outside the queues keeps waiting.
    pub open spec fn step_accounts(a: Self, b: Self, owed: Option<u64>, placed: Option<u64>, dropped: Option<u64>) -> bool {
        &&& forall|u: u64|
            #[trigger] a.in_cycle(u) ==> b.in_cycle(u) || (owed == Some(u) && b.pending().contains_key(u)) || placed
                == Some(u) || dropped == Some(u)
        &&& forall|u: u64| #[trigger] a.idle(u) ==> b.idle(u)
    }

    /// Some pod of the active queue has this uid.
    pub open spec fn active_has(&self, uid: u64) -> bool {
        exists|i: int| 0 <= i < self.active().len() && (#[trigger] self.active()[i]).uid == uid
    }

    pub open spec fn cache_wf(&self) -> bool {
        let r = self.running();
        let p = self.pending();
        let n = self.nodes();
        &&& forall|u: u64| #[trigger] r.contains_key(u) ==> {
            &&& r[u].uid == u
            &&& r[u].node_uid is Some
            &&& self.known_node_uids().contains(r[u].node_uid->0)
            &&& (n.contains_key(r[u].node_uid->0) ==> n[r[u].node_uid->0].pods.contains(u))
        }
        &&& forall|u: u64| #[trigger] p.contains_key(u) ==> p[u].uid == u && !r.contains_key(u)
        &&& forall|m: u64| #[trigger] n.contains_key(m) ==> node_consistent(n[m], m, r) && self.known_node_uids().contains(m)
    }

    pub open spec fn queues_wf(&self) -> bool {
        let p = self.pending();
        &&& forall|i: int|
            0 <= i < self.active().len() ==> p.contains_key((#[trigger] self.active()[i]).uid) && p[self.active()[i].uid]
                == self.active()[i]
        &&& forall|i: int|
            0 <= i < self.backoff().len() ==> p.contains_key((#[trigger] self.backoff()[i]).1) && !self.active_has(
                self.backoff()[i].1,
            )
    }

    pub open spec fn placing_wf(&self) -> bool {
        self.placing() ==> {
            let x = self.placing_pod();
            let cs = self.placing_candidates();
            &&& self.pending().contains_key(x.uid)
            &&& self.pending()[x.uid] == x
            &&& !self.active_has(x.uid)
            &&& !holds_pod(self.backoff(), x.uid)
            &&& cs.len() > 0
            &&& forall|i: int| 0 <= i < cs.len() ==> {
                &&& self.nodes().contains_key((#[trigger] cs[i]).uid)
                &&& self.nodes()[cs[i].uid] == cs[i]
                &&& cs[i].available_cpu >= x.request_cpu
                &&& cs[i].available_memory >= x.request_memory
            }
        }
    }

    proof fn lemma_queues_frame(a: &Self, b: &Self)
        requires
            a.queues_wf(),
            a.pending() == b.pending(),
            a.active() == b.active(),
            a.backoff() == b.backoff(),
        ensures
            b.queues_wf(),
    {
        assert forall|i: int| 0 <= i < b.backoff().len() implies b.pending().contains_key(
            (#[trigger] b.backoff()[i]).1) && !b.active_has(b.backoff()[i].1) by {
            assert(a.backoff()[i] == b.backoff()[i]);
        }
        assert forall|i: int| 0 <= i < b.active().len() implies b.pending().contains_key(
            (#[trigger] b.active()[i]).uid) && b.pending()[b.active()[i].uid] == b.active()[i] by {
            assert(a.active()[i] == b.active()[i]);
        }
    }

    proof fn lemma_cache_frame(a: &Self, b: &Self)
        requires
            a.cache_wf(),
            a.running() == b.running(),
            a.pending() == b.pending(),
            a.nodes() == b.nodes(),
            a.known_node_uids() == b.known_node_uids(),
        ensures
            b.cache_wf(),
    {
    }

    pub closed spec fn wf(&self) -> bool {
        &&& self.node_rtree.wf()
        &&& self.active_queue.wf()
        &&& self.backoff_queue.wf()
        &&& self.cache_wf()
        &&& self.queues_wf()
        &&& self.placing_wf()
    }
}

impl<C: TraitActiveQCmp, B: TraitBackOffQ> Scheduler<C, B> {
    /// What every operation keeps, scheduling steps included: each node's
    /// used resources are the requests of the running pods on it, which it
    /// lists once each; a running pod on a known node is listed by it; no pod
    /// is both pending and running.
    pub proof fn lemma_wf_accounting(&self)
        requires
            self.wf(),
        ensures
            forall|m: u64| #[trigger] self.nodes().contains_key(m) ==> {
                let n = self.nodes()[m];
                &&& n.uid == m
                &&& n.installed_cpu - n.available_cpu == used_cpu(n.pods, self.running())
                &&& n.installed_memory - n.available_memory == used_memory(n.pods, self.running())
                &&& n.pods.no_duplicates()
                &&& forall|i: int| 0 <= i < n.pods.len() ==> self.running().contains_key(#[trigger] n.pods[i])
                    && self.running()[n.pods[i]].node_uid == Some(m)
            },
            forall|u: u64| #[trigger] self.running().contains_key(u) ==> {
                let m = self.running()[u].node_uid->0;
                &&& self.running()[u].node_uid is Some
                &&& self.nodes().contains_key(m) ==> self.nodes()[m].pods.contains(u)
            },
            forall|u: u64| #[trigger] self.pending().contains_key(u) ==> !self.running().contains_key(u),
    {
        assert forall|m: u64| #[trigger] self.nodes().contains_key(m) implies node_consistent(
            self.nodes()[m],
            m,
            self.running(),
        ) by {}
    }
}

impl<C: TraitActiveQCmp, B: TraitBackOffQ> Scheduler<C, B> {
    /// A step that changes no queue, no pending pod and places nothing loses
    /// no pod.
    proof fn lemma_accounts_unchanged(a: Self, b: Self)
        requires
            b.active() == a.active(),
            b.backoff() == a.backoff(),
            b.pending() == a.pending(),
            !a.placing(),
            !b.placing(),
        ensures
            Self::step_accounts(a, b, None, None, None),
    {
    }

    /// Steps that lose no pod, one after the other, lose no pod.
    proof fn lemma_accounts_chain(a: Self, b: Self, c: Self)
        requires
            Self::step_accounts(a, b, None, None, None),
            Self::step_accounts(b, c, None, None, None),
        ensures
            Self::step_accounts(a, c, None, None, None),
    {
        assert forall|u: u64| #[trigger] a.in_cycle(u) implies c.in_cycle(u) by {
            assert(b.in_cycle(u));
        }
        assert forall|u: u64| #[trigger] a.idle(u) implies c.idle(u) by {
            assert(b.idle(u));
        }
    }

    /// Taking the last pod `x` of the active queue loses no pod other than
    /// `x`, whose fate the caller gives.
    proof fn lemma_accounts_pop(a: Self, b: Self, owed: Option<u64>, dropped: Option<u64>)
        requires
            a.wf(),
            !a.placing(),
            a.active().len() > 0,
            b.active() == a.active().drop_last(),
            b.pending().dom() == a.pending().dom(),
            forall|v: u64| holds_pod(a.backoff(), v) ==> holds_pod(b.backoff(), v),
            forall|v: u64| holds_pod(b.backoff(), v) ==> holds_pod(a.backoff(), v) || v == a.active().last().uid,
            b.placing() ==> b.placing_pod().uid == a.active().last().uid,
            owed is Some ==> owed == Some(a.active().last().uid),
            dropped is Some ==> dropped == Some(a.active().last().uid),
            ({
                let x = a.active().last().uid;
                ||| dropped == Some(x)
                ||| owed == Some(x)
                ||| holds_pod(b.backoff(), x)
                ||| b.placing() && b.placing_pod().uid == x
            }),
        ensures
            Self::step_accounts(a, b, owed, None, dropped),
    {
        let x = a.active().last();
        let n = a.active().len() - 1;
        assert(a.pending().contains_key(x.uid) && a.pending()[x.uid] == x);
        assert forall|u: u64| #[trigger] a.in_cycle(u) implies b.in_cycle(u) || (owed == Some(u)
            && b.pending().contains_key(u)) || None::<u64> == Some(u) || dropped == Some(u) by {
            assert(b.pending().contains_key(u));
            if u != x.uid {
                if a.active_has(u) {
                    let i = choose|i: int| 0 <= i < a.active().len() && (#[trigger] a.active()[i]).uid == u;
                    assert(i != n);
                    assert(b.active()[i] == a.active()[i]);
                } else {
                    assert(holds_pod(a.backoff(), u));
                }
            }
        }
        assert forall|u: u64| #[trigger] a.idle(u) implies b.idle(u) by {
            assert(a.active()[n].uid == x.uid);
            assert(u != x.uid);
            if b.active_has(u) {
                let i = choose|i: int| 0 <= i < b.active().len() && (#[trigger] b.active()[i]).uid == u;
                assert(a.active()[i] == b.active()[i]);
            }
        }
    }

    /// Placing the pod being placed loses no pod: it is placed.
    proof fn lemma_accounts_place(a: Self, b: Self)
        requires
            a.wf(),
            a.placing(),
            !b.placing(),
            b.active() == a.active(),
            b.backoff() == a.backoff(),
            b.pending() == a.pending().remove(a.placing_pod().uid),
        ensures
            Self::step_accounts(a, b, None, Some(a.placing_pod().uid), None),
    {
    }

    /// Moving the first back-off entry to the active queue loses no pod.
    proof fn lemma_accounts_requeue(a: Self, b: Self, pod_uid: u64)
        requires
            !a.placing(),
            !b.placing(),
            a.backoff().len() > 0,
            a.backoff()[0].1 == pod_uid,
            b.backoff() == a.backoff().drop_first(),
            b.pending() == a.pending(),
            a.pending().contains_key(pod_uid),
            b.active_has(pod_uid),
            forall|v: u64| #[trigger] a.active_has(v) ==> b.active_has(v),
            forall|v: u64| #[trigger] b.active_has(v) ==> a.active_has(v) || v == pod_uid,
        ensures
            Self::step_accounts(a, b, None, None, None),
    {
        assert forall|u: u64| #[trigger] a.in_cycle(u) implies b.in_cycle(u) by {
            if u != pod_uid && !a.active_has(u) {
                let i = choose|i: int| 0 <= i < a.backoff().len() && (#[trigger] a.backoff()[i]).1 == u;
                assert(i != 0);
                assert(b.backoff()[i - 1] == a.backoff()[i]);
            }
        }
        assert forall|u: u64| #[trigger] a.idle(u) implies b.idle(u) by {
            assert(holds_pod(a.backoff(), pod_uid)) by {
                assert(a.backoff()[0].1 == pod_uid);
            }
            assert(u != pod_uid);
            if holds_pod(b.backoff(), u) {
                let i = choose|i: int| 0 <= i < b.backoff().len() && (#[trigger] b.backoff()[i]).1 == u;
                assert(b.backoff()[i] == a.backoff()[i + 1]);
            }
        }
    }

    /// The law of a scheduling cycle: over any run of steps that each lose
    /// no pod (`begin_cycle`, `next_step` and `place` each ensure it), a pod
    /// that took part in the cycle at the start (pending, and active or in
    /// back-off) afterwards still takes part in it, or is pending and owed a
    /// second chance, or was placed, or is the pod dropped when the budget ran
    /// out.
    pub proof fn lemma_cycle_loses_no_pod(
        states: Seq<Self>,
        owed: Seq<Option<u64>>,
        placed: Seq<Option<u64>>,
        dropped: Seq<Option<u64>>,
        u: u64,
    )
        requires
            states.len() >= 1,
            owed.len() == states.len() - 1,
            placed.len() == states.len() - 1,
            dropped.len() == states.len() - 1,
            forall|i: int|
                0 <= i < states.len() - 1 ==> #[trigger] Self::step_accounts(
                    states[i],
                    states[i + 1],
                    owed[i],
                    placed[i],
                    dropped[i],
                ),
            states[0].in_cycle(u),
        ensures
            ({
                let last = states[states.len() - 1];
                ||| last.in_cycle(u)
                ||| last.pending().contains_key(u) && owed.contains(Some(u))
                ||| placed.contains(Some(u))
                ||| dropped.contains(Some(u))
            }),
        decreases states.len(),
    {
        let k = states.len() - 1;
        if k > 0 {
            let s2 = states.drop_last();
            assert forall|i: int| 0 <= i < s2.len() - 1 implies #[trigger] Self::step_accounts(
                s2[i],
                s2[i + 1],
                owed.drop_last()[i],
                placed.drop_last()[i],
                dropped.drop_last()[i],
            ) by {
                assert(Self::step_accounts(states[i], states[i + 1], owed[i], placed[i], dropped[i]));
            }
            Self::lemma_cycle_loses_no_pod(s2, owed.drop_last(), placed.drop_last(), dropped.drop_last(), u);
            let i = k - 1;
            assert(Self::step_accounts(states[i], states[i + 1], owed[i], placed[i], dropped[i]));
            let prev = states[i];
            let last = states[i + 1];
            if prev.in_cycle(u) {
                if owed[k - 1] == Some(u) {
                    assert(owed[k - 1] == Some(u));
                } else if placed[k - 1] == Some(u) {
                    assert(placed[k - 1] == Some(u));
                } else if dropped[k - 1] == Some(u) {
                    assert(dropped[k - 1] == Some(u));
                }
            } else if prev.pending().contains_key(u) && owed.drop_last().contains(Some(u)) {
                let j = choose|j: int| 0 <= j < owed.drop_last().len() && owed.drop_last()[j] == Some(u);
                assert(owed[j] == Some(u));
                assert(prev.idle(u));
                assert(last.idle(u));
            } else if placed.drop_last().contains(Some(u)) {
                let j = choose|j: int| 0 <= j < placed.drop_last().len() && placed.drop_last()[j] == Some(u);
                assert(placed[j] == Some(u));
            } else {
                let j = choose|j: int| 0 <= j < dropped.drop_last().len() && dropped.drop_last()[j] == Some(u);
                assert(dropped[j] == Some(u));
            }
        }
    }
}

impl<C: TraitActiveQCmp, B: TraitBackOffQ> Scheduler<C, B> {
    pub fn new(backoff_queue: B, filters: Vec<FilterPlugin>) -> (r: Self)
        requires
            backoff_queue.wf(),
            backoff_queue.entries().len() == 0,
        ensures
            r.wf(),
            r.running() == Map::<u64, PodView>::empty(),
            r.pending() == Map::<u64, PodView>::empty(),
            r.nodes() == Map::<u64, NodeView>::empty(),
            r.active().len() == 0,
            r.backoff().len() == 0,
            r.filter_list() == filters@,
            !r.placing(),
            !r.self_update(),
    {
        let r = Scheduler {
            running_pods: HashMap::new(),
            pending_pods: HashMap::new(),
            node_rtree: NodeRTree::new(),
            known_nodes: HashSet::new(),
            active_queue: ActiveMaxQ::new(),
            backoff_queue,
            failed_attempts: HashMap::new(),
            removed_pod: HashSet::new(),
            filters,
            self_update_enabled: false,
            current: None,
            candidates: Vec::new(),
        };
        assert(r.running() =~= Map::<u64, PodView>::empty());
        assert(r.pending() =~= Map::<u64, PodView>::empty());
        r
    }

    pub fn is_placing(&self) -> (r: bool)
        ensures
            r == self.placing(),
    {
        self.current.is_some()
    }

    /// Whether the pod runs, as far as the scheduler knows.
    pub fn is_running(&self, pod_uid: u64) -> (r: bool)
        ensures
            r == self.running().contains_key(pod_uid),
    {
        self.running_pods.contains_key(&pod_uid)
    }

    /// Whether the pod waits to be placed.
    pub fn is_pending(&self, pod_uid: u64) -> (r: bool)
        ensures
            r == self.pending().contains_key(pod_uid),
    {
        self.pending_pods.contains_key(&pod_uid)
    }

    /// Whether the node is in the cache.
    pub fn has_node(&self, node_uid: u64) -> (r: bool)
        ensures
            r == self.nodes().contains_key(node_uid),
    {
        self.node_rtree.get(node_uid).is_some()
    }

    /// Whether a node with this uid was ever added.
    pub fn is_known_node(&self, node_uid: u64) -> (r: bool)
        ensures
            r == self.known_node_uids().contains(node_uid),
    {
        self.known_nodes.contains(&node_uid)
    }

    pub fn pending_count(&self) -> (r: usize)
        ensures
            r == self.pending().len(),
    {
        proof {
            assert(self.pending().dom() =~= self.pending_pods@.dom());
        }
        self.pending_pods.len()
    }

    pub fn running_count(&self) -> (r: usize)
        ensures
            r == self.running().len(),
    {
        proof {
            assert(self.running().dom() =~= self.running_pods@.dom());
        }
        self.running_pods.len()
    }

    /// Whether the pod waits in the back-off queue.
    pub fn in_backoff(&self, pod_uid: u64) -> (r: bool)
        ensures
            r == holds_pod(self.backoff(), pod_uid),
    {
        self.backoff_queue.contains(pod_uid)
    }
}

impl<C: TraitActiveQCmp, B: TraitBackOffQ> Scheduler<C, B> {
    /// Adds a node that has just joined the cluster: all its resources are
    /// available and no pod is on it. Node uids are never reused.
    pub fn add_node(&mut self, node: Node)
        requires
            old(self).wf(),
            !old(self).placing(),
            !old(self).known_node_uids().contains(node@.uid),
            node@.pods.len() == 0,
            node@.available_cpu == node@.installed_cpu,
            node@.available_memory == node@.installed_memory,
            node@.installed_cpu < INDEX_LIMIT,
            node@.installed_memory < INDEX_LIMIT,
        ensures
            final(self).wf(),
            final(self).nodes() == old(self).nodes().insert(node@.uid, node@),
            final(self).known_node_uids() == old(self).known_node_uids().insert(node@.uid),
            final(self).running() == old(self).running(),
            final(self).pending() == old(self).pending(),
            final(self).active() == old(self).active(),
            final(self).backoff() == old(self).backoff(),
            !final(self).placing(),
    {
        let uid = node.metadata.uid;
        proof {
            if self.nodes().contains_key(uid) {
                assert(node_consistent(self.nodes()[uid], uid, self.running()));
            }
            assert(used_cpu(node@.pods, self.running()) == 0);
            assert(used_memory(node@.pods, self.running()) == 0);
        }
        self.node_rtree.insert(node);
        self.known_nodes.insert(uid);
        proof {
            let r = self.running();
            let n = self.nodes();
            assert forall|u: u64| #[trigger] r.contains_key(u) implies {
                &&& r[u].uid == u
                &&& r[u].node_uid is Some
                &&& self.known_node_uids().contains(r[u].node_uid->0)
                &&& (n.contains_key(r[u].node_uid->0) ==> n[r[u].node_uid->0].pods.contains(u))
            } by {
                assert(old(self).running().contains_key(u));
                assert(r[u].node_uid->0 != uid);
            }
            assert forall|m: u64| #[trigger] n.contains_key(m) implies node_consistent(n[m], m, r)
                && self.known_node_uids().contains(m) by {
                if m != uid {
                    assert(old(self).nodes().contains_key(m));
                }
            }
            assert(self.cache_wf());
            Self::lemma_queues_frame(old(self), self);
        }
    }

    /// Removes a node from the cache; the pods placed on it stay running
    /// until the kubelet reports them. The node must be known.
    pub fn remove_node(&mut self, node_uid: u64) -> (r: Node)
        requires
            old(self).wf(),
            !old(self).placing(),
            old(self).nodes().contains_key(node_uid),
        ensures
            final(self).wf(),
            r@ == old(self).nodes()[node_uid],
            final(self).nodes() == old(self).nodes().remove(node_uid),
            final(self).known_node_uids() == old(self).known_node_uids(),
            final(self).running() == old(self).running(),
            final(self).pending() == old(self).pending(),
            final(self).active() == old(self).active(),
            final(self).backoff() == old(self).backoff(),
            !final(self).placing(),
    {
        let r = self.node_rtree.remove(node_uid).unwrap();
        proof {
            let rn = self.running();
            let n = self.nodes();
            assert forall|u: u64| #[trigger] rn.contains_key(u) implies {
                &&& rn[u].uid == u
                &&& rn[u].node_uid is Some
                &&& self.known_node_uids().contains(rn[u].node_uid->0)
                &&& (n.contains_key(rn[u].node_uid->0) ==> n[rn[u].node_uid->0].pods.contains(u))
            } by {
                assert(old(self).running().contains_key(u));
            }
            assert forall|m: u64| #[trigger] n.contains_key(m) implies node_consistent(n[m], m, rn)
                && self.known_node_uids().contains(m) by {
                assert(old(self).nodes().contains_key(m));
            }
            assert(self.cache_wf());
            Self::lemma_queues_frame(old(self), self);
        }
        r
    }

    /// Takes in a pod submitted to the cluster: it becomes pending and joins
    /// the active queue. A pod held already, one not pending and one
    /// marked as starved are not accepted.
    pub fn process_new_pod(&mut self, pod: Pod)
        requires
            old(self).wf(),
            !old(self).placing(),
            !old(self).running().contains_key(pod@.uid),
            !old(self).pending().contains_key(pod@.uid),
            pod@.phase == PodPhase::Pending,
            !pod@.cluster_resource_starvation,
        ensures
            final(self).wf(),
            final(self).pending() == old(self).pending().insert(pod@.uid, pod@),
            final(self).running() == old(self).running(),
            final(self).nodes() == old(self).nodes(),
            final(self).backoff() == old(self).backoff(),
            final(self).active_has(pod@.uid),
            !final(self).placing(),
    {
        let uid = pod.metadata.uid;
        let copy = pod.clone();
        let ghost old_active = self.active();
        proof {
            assert forall|i: int| 0 <= i < old_active.len() implies (#[trigger] old_active[i]).uid != uid by {
                assert(self.pending().contains_key(old_active[i].uid));
            }
        }
        self.pending_pods.insert(uid, copy);
        self.active_queue.push(pod);
        proof {
            assert(self.pending() =~= old(self).pending().insert(uid, pod@));
            let a = self.active();
            if crate::scheduler::queues::active_queue::has_rank::<C>(old_active, C::rank_of(pod@)) {
                let i = choose|i: int| 0 <= i < old_active.len() && #[trigger] C::rank_of(old_active[i]) == C::rank_of(pod@);
                C::lemma_rank_uid(old_active[i], pod@);
                assert(old_active[i].uid == uid);
                assert(false);
            }
            let k = choose|k: int|
                0 <= k <= old_active.len() && a == old_active.insert(k, pod@) && (forall|j: int|
                    0 <= j < k ==> crate::scheduler::active_queue::rank_lt(#[trigger] C::rank_of(old_active[j]), C::rank_of(pod@))) && (forall|j: int|
                    k <= j < old_active.len() ==> crate::scheduler::active_queue::rank_lt(C::rank_of(pod@), #[trigger] C::rank_of(old_active[j])));
            assert(a[k] == pod@);
            assert forall|i: int| 0 <= i < a.len() implies self.pending().contains_key((#[trigger] a[i]).uid)
                && self.pending()[a[i].uid] == a[i] by {
                if i < k {
                    assert(a[i] == old_active[i]);
                } else if i > k {
                    assert(a[i] == old_active[i - 1]);
                }
            }
            assert forall|i: int| 0 <= i < self.backoff().len() implies self.pending().contains_key(
                (#[trigger] self.backoff()[i]).1) && !self.active_has(self.backoff()[i].1) by {
                let b = self.backoff()[i].1;
                assert(old(self).backoff() == self.backoff());
                assert(old(self).backoff()[i].1 == b);
                assert(old(self).pending().contains_key(b));
                assert(b != uid);
                if self.active_has(b) {
                    let j = choose|j: int| 0 <= j < a.len() && (#[trigger] a[j]).uid == b;
                    if j < k {
                        assert(a[j] == old_active[j]);
                    } else if j > k {
                        assert(a[j] == old_active[j - 1]);
                    }
                }
            }
            let r = self.running();
            let p = self.pending();
            let n = self.nodes();
            assert forall|u: u64| #[trigger] r.contains_key(u) implies {
                &&& r[u].uid == u
                &&& r[u].node_uid is Some
                &&& self.known_node_uids().contains(r[u].node_uid->0)
                &&& (n.contains_key(r[u].node_uid->0) ==> n[r[u].node_uid->0].pods.contains(u))
            } by {
                assert(old(self).running().contains_key(u));
            }
            assert forall|u: u64| #[trigger] p.contains_key(u) implies p[u].uid == u && !r.contains_key(u) by {
                if u != uid {
                    assert(old(self).pending().contains_key(u));
                }
            }
            assert forall|m: u64| #[trigger] n.contains_key(m) implies node_consistent(n[m], m, r)
                && self.known_node_uids().contains(m) by {
                assert(old(self).nodes().contains_key(m));
            }
            assert(self.cache_wf());
            assert(self.queues_wf());
            assert(self.placing_wf());
        }
    }
}

impl<C: TraitActiveQCmp, B: TraitBackOffQ> Scheduler<C, B> {
    /// Puts a pending pod, as the cache holds it, into the active queue.
    fn requeue(&mut self, pod_uid: u64)
        requires
            old(self).wf(),
            !old(self).placing(),
            old(self).pending().contains_key(pod_uid),
            !holds_pod(old(self).backoff(), pod_uid),
        ensures
            final(self).wf(),
            final(self).running() == old(self).running(),
            final(self).pending() == old(self).pending(),
            final(self).nodes() == old(self).nodes(),
            final(self).known_node_uids() == old(self).known_node_uids(),
            final(self).backoff() == old(self).backoff(),
            final(self).attempts() == old(self).attempts(),
            final(self).removed() == old(self).removed(),
            final(self).filter_list() == old(self).filter_list(),
            final(self).self_update() == old(self).self_update(),
            final(self).active_has(pod_uid),
            crate::scheduler::queues::active_queue::has_rank::<C>(old(self).active(), C::rank_of(old(self).pending()[pod_uid]))
                ==> final(self).active() == old(self).active(),
            !crate::scheduler::queues::active_queue::has_rank::<C>(old(self).active(), C::rank_of(old(self).pending()[pod_uid]))
                ==> crate::scheduler::queues::active_queue::inserted_in_order::<C>(
                old(self).active(),
                old(self).pending()[pod_uid],
                final(self).active(),
            ),
            !final(self).placing(),
    {
        let pod = self.pending_pods.get(&pod_uid).unwrap().clone();
        let ghost old_active = self.active();
        assert(pod@ == self.pending()[pod_uid]);
        self.active_queue.push(pod);
        proof {
            let a = self.active();
            if crate::scheduler::queues::active_queue::has_rank::<C>(old_active, C::rank_of(pod@)) {
                let i = choose|i: int| 0 <= i < old_active.len() && #[trigger] C::rank_of(old_active[i]) == C::rank_of(pod@);
                C::lemma_rank_uid(old_active[i], pod@);
                assert(a[i].uid == pod_uid);
                Self::lemma_queues_frame(old(self), self);
            } else {
                let k = choose|k: int|
                    0 <= k <= old_active.len() && a == old_active.insert(k, pod@) && (forall|j: int|
                        0 <= j < k ==> crate::scheduler::active_queue::rank_lt(#[trigger] C::rank_of(old_active[j]), C::rank_of(pod@))) && (forall|j: int|
                        k <= j < old_active.len() ==> crate::scheduler::active_queue::rank_lt(C::rank_of(pod@), #[trigger] C::rank_of(old_active[j])));
                assert(a[k] == pod@);
                assert forall|i: int| 0 <= i < a.len() implies self.pending().contains_key((#[trigger] a[i]).uid)
                    && self.pending()[a[i].uid] == a[i] by {
                    if i < k {
                        assert(a[i] == old_active[i]);
                    } else if i > k {
                        assert(a[i] == old_active[i - 1]);
                    }
                }
                assert forall|i: int| 0 <= i < self.backoff().len() implies self.pending().contains_key(
                    (#[trigger] self.backoff()[i]).1) && !self.active_has(self.backoff()[i].1) by {
                    let b = self.backoff()[i].1;
                    assert(old(self).backoff()[i].1 == b);
                    assert(old(self).pending().contains_key(b));
                    assert(b != pod_uid);
                    if self.active_has(b) {
                        let j = choose|j: int| 0 <= j < a.len() && (#[trigger] a[j]).uid == b;
                        if j < k {
                            assert(a[j] == old_active[j]);
                        } else if j > k {
                            assert(a[j] == old_active[j - 1]);
                        }
                    }
                }
            }
            Self::lemma_cache_frame(old(self), self);
        }
    }

    /// A pod that failed its first scheduling attempt is tried again. The
    /// pod must still be pending; it is not in the back-off queue then.
    pub fn second_chance(&mut self, pod_uid: u64)
        requires
            old(self).wf(),
            !old(self).placing(),
            old(self).pending().contains_key(pod_uid),
            !holds_pod(old(self).backoff(), pod_uid),
        ensures
            final(self).wf(),
            final(self).running() == old(self).running(),
            final(self).pending() == old(self).pending(),
            final(self).nodes() == old(self).nodes(),
            final(self).backoff() == old(self).backoff(),
            final(self).active_has(pod_uid),
            !final(self).placing(),
    {
        self.requeue(pod_uid);
    }

    /// Moves the pods whose back-off time has come to the active queue.
    pub fn begin_cycle(&mut self, current_time: u64)
        requires
            old(self).wf(),
            !old(self).placing(),
        ensures
            final(self).wf(),
            final(self).running() == old(self).running(),
            final(self).pending() == old(self).pending(),
            final(self).nodes() == old(self).nodes(),
            final(self).known_node_uids() == old(self).known_node_uids(),
            final(self).attempts() == old(self).attempts(),
            final(self).removed() == old(self).removed(),
            final(self).filter_list() == old(self).filter_list(),
            final(self).self_update() == old(self).self_update(),
            final(self).backoff().len() == 0 || final(self).backoff()[0].0 > current_time,
            !final(self).placing(),
            final(self).pod_uids() == old(self).pod_uids(),
            Self::step_accounts(*old(self), *final(self), None, None, None),
    {
        loop
            invariant
                self.wf(),
                !self.placing(),
                Self::step_accounts(*old(self), *self, None, None, None),
                self.running() == old(self).running(),
                self.pending() == old(self).pending(),
                self.nodes() == old(self).nodes(),
                self.known_node_uids() == old(self).known_node_uids(),
                self.attempts() == old(self).attempts(),
                self.removed() == old(self).removed(),
                self.filter_list() == old(self).filter_list(),
                self.self_update() == old(self).self_update(),
            ensures
                self.wf(),
                !self.placing(),
                self.running() == old(self).running(),
                self.pending() == old(self).pending(),
                self.nodes() == old(self).nodes(),
                self.known_node_uids() == old(self).known_node_uids(),
                self.attempts() == old(self).attempts(),
                self.removed() == old(self).removed(),
                self.filter_list() == old(self).filter_list(),
                self.self_update() == old(self).self_update(),
                self.backoff().len() == 0 || self.backoff()[0].0 > current_time,
                Self::step_accounts(*old(self), *self, None, None, None),
            decreases self.backoff().len(),
        {
            let ghost before = *self;
            match self.backoff_queue.try_pop(current_time) {
                None => {
                    break;
                },
                Some(pod_uid) => {
                    proof {
                        let b = before.backoff();
                        assert(b[0].1 == pod_uid);
                        assert(before.pending().contains_key(b[0].1));
                        assert(!before.active_has(pod_uid));
                        assert(self.backoff() == b.drop_first());
                        if holds_pod(self.backoff(), pod_uid) {
                            let i = choose|i: int| 0 <= i < self.backoff().len() && (#[trigger] self.backoff()[i]).1 == pod_uid;
                            assert(self.backoff()[i] == b[i + 1]);
                        }
                        assert forall|i: int| 0 <= i < self.backoff().len() implies self.pending().contains_key(
                            (#[trigger] self.backoff()[i]).1) && !self.active_has(self.backoff()[i].1) by {
                            assert(self.backoff()[i] == b[i + 1]);
                        }
                        assert(self.active() == before.active());
                        assert(self.queues_wf());
                        Self::lemma_cache_frame(&before, self);
                    }
                    let ghost mid = *self;
                    self.requeue(pod_uid);
                    proof {
                        assert(mid.pending()[pod_uid].uid == pod_uid);
                        if !crate::scheduler::queues::active_queue::has_rank::<C>(
                            mid.active(),
                            C::rank_of(mid.pending()[pod_uid]),
                        ) {
                            let k = choose|k: int|
                                0 <= k <= mid.active().len() && self.active() == mid.active().insert(
                                    k,
                                    mid.pending()[pod_uid],
                                ) && (forall|j: int|
                                    0 <= j < k ==> crate::scheduler::active_queue::rank_lt(
                                        #[trigger] C::rank_of(mid.active()[j]),
                                        C::rank_of(mid.pending()[pod_uid]),
                                    )) && (forall|j: int|
                                    k <= j < mid.active().len() ==> crate::scheduler::active_queue::rank_lt(
                                        C::rank_of(mid.pending()[pod_uid]),
                                        #[trigger] C::rank_of(mid.active()[j]),
                                    ));
                            assert forall|v: u64| #[trigger] mid.active_has(v) implies self.active_has(v) by {
                                let i = choose|i: int| 0 <= i < mid.active().len() && (#[trigger] mid.active()[i]).uid == v;
                                if i < k {
                                    assert(self.active()[i] == mid.active()[i]);
                                } else {
                                    assert(self.active()[i + 1] == mid.active()[i]);
                                }
                            }
                            assert forall|v: u64| #[trigger] self.active_has(v) implies mid.active_has(v) || v == pod_uid by {
                                let i = choose|i: int| 0 <= i < self.active().len() && (#[trigger] self.active()[i]).uid == v;
                                if i < k {
                                    assert(self.active()[i] == mid.active()[i]);
                                } else if i > k {
                                    assert(self.active()[i] == mid.active()[i - 1]);
                                }
                            }
                        }
                        assert(before.active() == mid.active());
                        assert forall|v: u64| #[trigger] before.active_has(v) implies self.active_has(v) by {
                            assert(mid.active_has(v));
                        }
                        assert forall|v: u64| #[trigger] self.active_has(v) implies before.active_has(v) || v == pod_uid by {
                            if v != pod_uid {
                                assert(mid.active_has(v));
                            }
                        }
                        Self::lemma_accounts_requeue(before, *self, pod_uid);
                        Self::lemma_accounts_chain(*old(self), before, *self);
                    }
                },
            }
        }
    }
}

proof fn lemma_no_dup_remove(s: Seq<u64>, i: int)
    requires
        s.no_duplicates(),
        0 <= i < s.len(),
    ensures
        s.remove(i).no_duplicates(),
        !s.remove(i).contains(s[i]),
{
    let t = s.remove(i);
    assert forall|a: int, b: int| 0 <= a < t.len() && 0 <= b < t.len() && a != b implies t[a] != t[b] by {
        let aa = if a < i { a } else { a + 1 };
        let bb = if b < i { b } else { b + 1 };
        assert(t[a] == s[aa] && t[b] == s[bb]);
    }
    if t.contains(s[i]) {
        let a = choose|a: int| 0 <= a < t.len() && t[a] == s[i];
        let aa = if a < i { a } else { a + 1 };
        assert(t[a] == s[aa]);
    }
}

/// Index of `x` in `v`.
fn index_of(v: &Vec<u64>, x: u64) -> (r: usize)
    requires
        v@.contains(x),
    ensures
        r < v@.len(),
        v@[r as int] == x,
{
    let mut i: usize = 0;
    while i < v.len()
        invariant
            i <= v.len(),
            v@.contains(x),
            forall|j: int| 0 <= j < i ==> v@[j] != x,
        decreases v.len() - i,
    {
        if v[i] == x {
            return i;
        }
        i = i + 1;
    }
    proof {
        let j = choose|j: int| 0 <= j < v@.len() && v@[j] == x;
        assert(v@[j] != x);
    }
    0
}

impl<C: TraitActiveQCmp, B: TraitBackOffQ> Scheduler<C, B> {
    /// A running pod leaves the node it was placed on: the node, if still
    /// known, gets the pod's requests back.
    pub open spec fn released_nodes(&self, pod_uid: u64) -> Map<u64, NodeView> {
        let pod = self.running()[pod_uid];
        let m = pod.node_uid->0;
        if self.nodes().contains_key(m) {
            let n = self.nodes()[m];
            let i = choose|i: int| 0 <= i < n.pods.len() && n.pods[i] == pod_uid;
            self.nodes().insert(
                m,
                NodeView {
                    available_cpu: (n.available_cpu + pod.request_cpu) as u64,
                    available_memory: (n.available_memory + pod.request_memory) as u64,
                    pods: n.pods.remove(i),
                    ..n
                },
            )
        } else {
            self.nodes()
        }
    }

    /// Takes a pod out of the running set and gives its requests back to its
    /// node, if the node is still known. Tells whether it did.
    fn take_running(&mut self, pod_uid: u64) -> (r: (Pod, bool))
        requires
            old(self).wf(),
            !old(self).placing(),
            old(self).running().contains_key(pod_uid),
        ensures
            final(self).wf(),
            r.0@ == old(self).running()[pod_uid],
            r.1 == old(self).nodes().contains_key(old(self).running()[pod_uid].node_uid->0),
            final(self).running() == old(self).running().remove(pod_uid),
            final(self).nodes() == old(self).released_nodes(pod_uid),
            final(self).pending() == old(self).pending(),
            final(self).known_node_uids() == old(self).known_node_uids(),
            final(self).active() == old(self).active(),
            final(self).backoff() == old(self).backoff(),
            final(self).attempts() == old(self).attempts(),
            final(self).removed() == old(self).removed(),
            final(self).filter_list() == old(self).filter_list(),
            final(self).self_update() == old(self).self_update(),
            !final(self).placing(),
    {
        let ghost r0 = self.running();
        let ghost n0 = self.nodes();
        let pod = self.running_pods.remove(&pod_uid).unwrap();
        assert(pod@ == r0[pod_uid]);
        let node_uid = pod.status.node_uid.unwrap();
        let restored = match self.node_rtree.remove(node_uid) {
            None => {
                proof {
                    let r = self.running();
                    assert(r =~= r0.remove(pod_uid));
                    assert forall|m: u64| #[trigger] n0.contains_key(m) implies node_consistent(n0[m], m, r) by {
                        let nm = n0[m];
                        assert(node_consistent(nm, m, r0));
                        assert forall|i: int| 0 <= i < nm.pods.len() implies #[trigger] r0[nm.pods[i]] == r[nm.pods[i]] by {
                            assert(r0[nm.pods[i]].node_uid == Some(m));
                        }
                        assert forall|i: int| 0 <= i < nm.pods.len() implies r.contains_key(#[trigger] nm.pods[i])
                            && r[nm.pods[i]].node_uid == Some(m) by {
                            assert(r0[nm.pods[i]].node_uid == Some(m));
                        }
                        lemma_used_frame(nm.pods, r0, r);
                    }
                    assert(self.nodes() == n0);
                    assert(old(self).released_nodes(pod_uid) == n0);
                }
                false
            },
            Some(mut node) => {
                let ghost nv = node@;
                proof {
                    assert(node_consistent(nv, node_uid, r0));
                    assert(nv.pods.contains(pod_uid));
                    let i = choose|i: int| 0 <= i < nv.pods.len() && nv.pods[i] == pod_uid;
                    lemma_used_at_least(nv.pods, r0, i);
                }
                node.restore(pod.spec.request_cpu, pod.spec.request_memory);
                let i = index_of(&node.status.pods, pod_uid);
                node.status.pods.remove(i);
                proof {
                    let r = self.running();
                    assert(r =~= r0.remove(pod_uid));
                    lemma_no_dup_remove(nv.pods, i as int);
                    lemma_used_remove(nv.pods, r0, i as int);
                    let pods2 = nv.pods.remove(i as int);
                    assert forall|j: int| 0 <= j < pods2.len() implies #[trigger] r0[pods2[j]] == r[pods2[j]] by {
                        assert(pods2[j] != pod_uid);
                    }
                    lemma_used_frame(pods2, r0, r);
                    assert forall|j: int| 0 <= j < pods2.len() implies r.contains_key(#[trigger] pods2[j])
                        && r[pods2[j]].node_uid == Some(node_uid) by {
                        assert(pods2[j] != pod_uid);
                        let jj = if j < i { j } else { j + 1 };
                        assert(pods2[j] == nv.pods[jj]);
                    }
                    assert(node_consistent(node@, node_uid, r));
                    // the index chosen by the specification is the same entry
                    let k = choose|k: int| 0 <= k < nv.pods.len() && nv.pods[k] == pod_uid;
                    assert(k == i as int) by {
                        if k != i as int {
                            assert(nv.pods[k] == nv.pods[i as int]);
                        }
                    }
                }
                self.node_rtree.insert(node);
                proof {
                    let r = self.running();
                    let n = self.nodes();
                    assert forall|m: u64| #[trigger] n.contains_key(m) implies node_consistent(n[m], m, r)
                        && self.known_node_uids().contains(m) by {
                        if m != node_uid {
                            let nm = n0[m];
                            assert(node_consistent(nm, m, r0));
                            assert forall|j: int| 0 <= j < nm.pods.len() implies #[trigger] r0[nm.pods[j]] == r[nm.pods[j]] by {
                                assert(r0[nm.pods[j]].node_uid == Some(m));
                            }
                            assert forall|j: int| 0 <= j < nm.pods.len() implies r.contains_key(#[trigger] nm.pods[j])
                                && r[nm.pods[j]].node_uid == Some(m) by {
                                assert(r0[nm.pods[j]].node_uid == Some(m));
                            }
                            lemma_used_frame(nm.pods, r0, r);
                        }
                    }
                    assert(n =~= old(self).released_nodes(pod_uid));
                }
                true
            },
        };
        proof {
            let r = self.running();
            let n = self.nodes();
            assert forall|u: u64| #[trigger] r.contains_key(u) implies {
                &&& r[u].uid == u
                &&& r[u].node_uid is Some
                &&& self.known_node_uids().contains(r[u].node_uid->0)
                &&& (n.contains_key(r[u].node_uid->0) ==> n[r[u].node_uid->0].pods.contains(u))
            } by {
                assert(r0.contains_key(u));
                let m = r0[u].node_uid->0;
                if n.contains_key(m) && m == node_uid {
                    let nv = n0[m];
                    assert(nv.pods.contains(u));
                    let a = choose|a: int| 0 <= a < nv.pods.len() && nv.pods[a] == u;
                    let i = choose|i: int| 0 <= i < nv.pods.len() && nv.pods[i] == pod_uid;
                    assert(a != i);
                    let aa = if a < i { a } else { a - 1 };
                    assert(n[m].pods[aa] == u);
                }
            }
            assert forall|u: u64| #[trigger] self.pending().contains_key(u) implies self.pending()[u].uid == u
                && !r.contains_key(u) by {
                assert(old(self).pending().contains_key(u));
            }
            assert(self.cache_wf());
            Self::lemma_queues_frame(old(self), self);
        }
        (pod, restored)
    }
}

/// The phases in which a pod reported by its kubelet goes back to the
/// scheduler's queue, rather than being done.
pub open spec fn returns_to_queue(phase: PodPhase) -> bool {
    phase == PodPhase::Pending || phase == PodPhase::Evicted || phase == PodPhase::Preempted
}

/// Requests a pod gives back to its node, where the node was still known.
pub open spec fn released(pod: PodView, restored: bool) -> Option<(u64, u64)> {
    if restored {
        Some((pod.request_cpu, pod.request_memory))
    } else {
        None
    }
}

impl<C: TraitActiveQCmp, B: TraitBackOffQ> Scheduler<C, B> {
    /// A running pod was evicted by its kubelet: its node gets its requests
    /// back; unless the API server removed it meanwhile, it becomes pending
    /// again (on no node, where its node is known) and rejoins the active
    /// queue. Returns the resources given back to the node, if any.
    pub fn process_evicted_pod(&mut self, pod_uid: u64) -> (r: Option<(u64, u64)>)
        requires
            old(self).wf(),
            !old(self).placing(),
            old(self).running().contains_key(pod_uid),
        ensures
            final(self).wf(),
            ({
                let pod = old(self).running()[pod_uid];
                let restored = old(self).nodes().contains_key(pod.node_uid->0);
                &&& r == released(pod, restored)
                &&& final(self).running() == old(self).running().remove(pod_uid)
                &&& final(self).nodes() == old(self).released_nodes(pod_uid)
                &&& old(self).removed().contains(pod_uid) ==> {
                    &&& final(self).removed() == old(self).removed().remove(pod_uid)
                    &&& final(self).pending() == old(self).pending()
                    &&& final(self).active() == old(self).active()
                }
                &&& !old(self).removed().contains(pod_uid) ==> {
                    &&& final(self).removed() == old(self).removed()
                    &&& final(self).pending() == old(self).pending().insert(
                        pod_uid,
                        PodView {
                            phase: PodPhase::Pending,
                            node_uid: if restored { None } else { pod.node_uid },
                            ..pod
                        },
                    )
                    &&& final(self).active_has(pod_uid)
                }
            }),
            final(self).backoff() == old(self).backoff(),
            !final(self).placing(),
    {
        let (mut pod, restored) = self.take_running(pod_uid);
        if restored {
            pod.status.node_uid = None;
        }
        let result = if restored {
            Some((pod.spec.request_cpu, pod.spec.request_memory))
        } else {
            None
        };
        if self.removed_pod.contains(&pod_uid) {
            self.removed_pod.remove(&pod_uid);
            proof {
                assert(self.removed() =~= old(self).removed().remove(pod_uid));
            }
            return result;
        }
        pod.status.phase = PodPhase::Pending;
        let ghost before = *self;
        proof {
            assert(!holds_pod(self.backoff(), pod_uid)) by {
                if holds_pod(self.backoff(), pod_uid) {
                    let i = choose|i: int| 0 <= i < self.backoff().len() && (#[trigger] self.backoff()[i]).1 == pod_uid;
                    assert(old(self).pending().contains_key(pod_uid));
                }
            }
            assert forall|i: int| 0 <= i < self.active().len() implies (#[trigger] self.active()[i]).uid != pod_uid by {
                assert(old(self).pending().contains_key(self.active()[i].uid));
            }
        }
        self.pending_pods.insert(pod_uid, pod);
        proof {
            let p = self.pending();
            assert(p =~= before.pending().insert(pod_uid, p[pod_uid]));
            assert forall|u: u64| #[trigger] p.contains_key(u) implies p[u].uid == u && !self.running().contains_key(u) by {
                if u != pod_uid {
                    assert(before.pending().contains_key(u));
                }
            }
            assert(self.cache_wf());
            assert forall|i: int| 0 <= i < self.active().len() implies p.contains_key((#[trigger] self.active()[i]).uid)
                && p[self.active()[i].uid] == self.active()[i] by {
                assert(before.active()[i] == self.active()[i]);
            }
            assert forall|i: int| 0 <= i < self.backoff().len() implies p.contains_key((#[trigger] self.backoff()[i]).1)
                && !self.active_has(self.backoff()[i].1) by {
                assert(before.backoff()[i] == self.backoff()[i]);
            }
            assert(self.queues_wf());
        }
        self.requeue(pod_uid);
        result
    }

    /// A running pod succeeded or failed: its node gets its requests back and
    /// its failed attempts are forgotten. Returns the resources given back to
    /// the node, if any.
    pub fn process_finished_pod(&mut self, pod_uid: u64) -> (r: Option<(u64, u64)>)
        requires
            old(self).wf(),
            !old(self).placing(),
            old(self).running().contains_key(pod_uid),
        ensures
            final(self).wf(),
            r == released(
                old(self).running()[pod_uid],
                old(self).nodes().contains_key(old(self).running()[pod_uid].node_uid->0),
            ),
            final(self).running() == old(self).running().remove(pod_uid),
            final(self).nodes() == old(self).released_nodes(pod_uid),
            final(self).pending() == old(self).pending(),
            final(self).active() == old(self).active(),
            final(self).backoff() == old(self).backoff(),
            final(self).attempts() == old(self).attempts().remove(pod_uid),
            final(self).removed() == old(self).removed(),
            !final(self).placing(),
    {
        let (pod, restored) = self.take_running(pod_uid);
        self.failed_attempts.remove(&pod_uid);
        if restored {
            Some((pod.spec.request_cpu, pod.spec.request_memory))
        } else {
            None
        }
    }

    /// A kubelet's report on a running pod: a pod that is pending again,
    /// evicted or preempted goes back to the queue (see
    /// `process_evicted_pod`); one that succeeded, failed or was removed is
    /// done (see `process_finished_pod`). A report of a running or unknown
    /// phase is a fault of the sender.
    pub fn process_pod_update(&mut self, pod_uid: u64, phase: PodPhase) -> (r: Option<(u64, u64)>)
        requires
            old(self).wf(),
            !old(self).placing(),
            old(self).running().contains_key(pod_uid),
            phase != PodPhase::Running,
            phase != PodPhase::Unknown,
        ensures
            final(self).wf(),
            !final(self).placing(),
            ({
                let pod = old(self).running()[pod_uid];
                let restored = old(self).nodes().contains_key(pod.node_uid->0);
                &&& r == released(pod, restored)
                &&& final(self).running() == old(self).running().remove(pod_uid)
                &&& final(self).nodes() == old(self).released_nodes(pod_uid)
                &&& final(self).backoff() == old(self).backoff()
                &&& returns_to_queue(phase) && old(self).removed().contains(pod_uid) ==> {
                    &&& final(self).removed() == old(self).removed().remove(pod_uid)
                    &&& final(self).pending() == old(self).pending()
                    &&& final(self).active() == old(self).active()
                }
                &&& returns_to_queue(phase) && !old(self).removed().contains(pod_uid) ==> {
                    &&& final(self).removed() == old(self).removed()
                    &&& final(self).pending() == old(self).pending().insert(
                        pod_uid,
                        PodView {
                            phase: PodPhase::Pending,
                            node_uid: if restored { None } else { pod.node_uid },
                            ..pod
                        },
                    )
                    &&& final(self).active_has(pod_uid)
                }
                &&& !returns_to_queue(phase) ==> {
                    &&& final(self).pending() == old(self).pending()
                    &&& final(self).active() == old(self).active()
                    &&& final(self).attempts() == old(self).attempts().remove(pod_uid)
                    &&& final(self).removed() == old(self).removed()
                }
            }),
    {
        match phase {
            PodPhase::Pending | PodPhase::Evicted | PodPhase::Preempted => self.process_evicted_pod(pod_uid),
            _ => self.process_finished_pod(pod_uid),
        }
    }

    /// The pod the API server asks to preempt: none for a pending pod, and
    /// for a running one the pod with the node it runs on, to be reported
    /// pending.
    pub fn preempt_pod(&self, pod_uid: u64) -> (r: Option<Preemption>)
        requires
            self.wf(),
        ensures
            self.pending().contains_key(pod_uid) ==> r is None,
            !self.pending().contains_key(pod_uid) && self.running().contains_key(pod_uid) ==> r is Some
                && r->0.pod@ == self.running()[pod_uid] && Some(r->0.node_uid) == self.running()[pod_uid].node_uid
                && r->0.new_phase == PodPhase::Pending,
            !self.pending().contains_key(pod_uid) && !self.running().contains_key(pod_uid) ==> r is None,
    {
        if self.pending_pods.contains_key(&pod_uid) {
            return None;
        }
        match self.running_pods.get(&pod_uid) {
            Some(pod) => {
                assert(self.running().contains_key(pod_uid));
                Some(Preemption { pod: pod.clone(), node_uid: pod.status.node_uid.unwrap(), new_phase: PodPhase::Pending })
            },
            None => None,
        }
    }

    /// The API server removes a pod: where the scheduler holds it, it is
    /// marked as removed and, if running, handed back for preemption, to be
    /// reported to the API server as pending on its node.
    pub fn remove_pod(&mut self, pod_uid: u64) -> (r: Option<Preemption>)
        requires
            old(self).wf(),
            !old(self).placing(),
        ensures
            final(self).wf(),
            (old(self).running().contains_key(pod_uid) || old(self).pending().contains_key(pod_uid))
                ==> final(self).removed() == old(self).removed().insert(pod_uid),
            !(old(self).running().contains_key(pod_uid) || old(self).pending().contains_key(pod_uid))
                ==> final(self).removed() == old(self).removed(),
            old(self).running().contains_key(pod_uid) ==> r is Some && r->0.pod@ == old(self).running()[pod_uid]
                && Some(r->0.node_uid) == old(self).running()[pod_uid].node_uid
                && r->0.new_phase == PodPhase::Pending,
            !old(self).running().contains_key(pod_uid) ==> r is None,
            final(self).running() == old(self).running(),
            final(self).pending() == old(self).pending(),
            final(self).nodes() == old(self).nodes(),
            final(self).active() == old(self).active(),
            final(self).backoff() == old(self).backoff(),
            !final(self).placing(),
    {
        if self.running_pods.contains_key(&pod_uid) || self.pending_pods.contains_key(&pod_uid) {
            self.removed_pod.insert(pod_uid);
            proof {
                Self::lemma_cache_frame(old(self), self);
                Self::lemma_queues_frame(old(self), self);
            }
            self.preempt_pod(pod_uid)
        } else {
            None
        }
    }

    /// Turns on periodic self-updates; tells whether one must be scheduled
    /// (it was off).
    pub fn self_update_on(&mut self) -> (r: bool)
        requires
            old(self).wf(),
        ensures
            final(self).wf(),
            r == !old(self).self_update(),
            final(self).self_update(),
            final(self).running() == old(self).running(),
            final(self).pending() == old(self).pending(),
            final(self).nodes() == old(self).nodes(),
            final(self).active() == old(self).active(),
            final(self).backoff() == old(self).backoff(),
            final(self).placing() == old(self).placing(),
    {
        if !self.self_update_enabled {
            self.self_update_enabled = true;
            proof {
                Self::lemma_cache_frame(old(self), self);
                Self::lemma_queues_frame(old(self), self);
            }
            true
        } else {
            false
        }
    }

    /// After a scheduling cycle: another self-update is due while pods are
    /// pending; otherwise self-updates turn off.
    pub fn end_self_update(&mut self) -> (r: bool)
        requires
            old(self).wf(),
        ensures
            final(self).wf(),
            r == (old(self).pending().len() > 0),
            final(self).self_update() == (old(self).self_update() && r),
            final(self).running() == old(self).running(),
            final(self).pending() == old(self).pending(),
            final(self).nodes() == old(self).nodes(),
            final(self).active() == old(self).active(),
            final(self).backoff() == old(self).backoff(),
            final(self).placing() == old(self).placing(),
    {
        if self.pending_count() > 0 {
            true
        } else {
            self.self_update_enabled = false;
            proof {
                Self::lemma_cache_frame(old(self), self);
                Self::lemma_queues_frame(old(self), self);
            }
            false
        }
    }
}

/// The node has the resources the pod requests.
pub open spec fn fits(node: NodeView, pod: PodView) -> bool {
    node.available_cpu >= pod.request_cpu && node.available_memory >= pod.request_memory
}

/// Failed attempts recorded for a pod, none counting as zero.
pub open spec fn attempts_of(attempts: Map<u64, u64>, pod_uid: u64) -> u64 {
    if attempts.contains_key(pod_uid) {
        attempts[pod_uid]
    } else {
        0
    }
}

/// `a + 1`, or the largest count where that overflows.
pub open spec fn saturating_inc(a: u64) -> u64 {
    if a == u64::MAX {
        a
    } else {
        (a + 1) as u64
    }
}

impl<C: TraitActiveQCmp, B: TraitBackOffQ> Scheduler<C, B> {
    /// Whether every filter of the pipeline accepts the node for the pod.
    fn passes_all(&self, pod: &Pod, node: &Node) -> (r: bool)
        ensures
            r == passes_filters(self.filter_list(), pod@, node@),
    {
        let mut i: usize = 0;
        while i < self.filters.len()
            invariant
                i <= self.filters.len(),
                forall|j: int| 0 <= j < i ==> #[trigger] filter_accepts(self.filters@[j], pod@, node@),
            decreases self.filters.len() - i,
        {
            if !self.filters[i].filter(&self.running_pods, &self.pending_pods, self.node_rtree.node_map(), pod, node) {
                return false;
            }
            i = i + 1;
        }
        true
    }

    /// One step of a scheduling cycle: takes the pod of greatest rank from
    /// the active queue and finds the nodes it may go to. When the budget is
    /// spent the taken pod is left out of the queue.
    pub fn next_step(&mut self, current_time: u64, budget: &mut CycleBudget) -> (r: ScheduleStep)
        requires
            old(self).wf(),
            !old(self).placing(),
        ensures
            final(self).wf(),
            final(self).running() == old(self).running(),
            final(self).nodes() == old(self).nodes(),
            final(self).known_node_uids() == old(self).known_node_uids(),
            final(self).removed() == old(self).removed(),
            final(self).filter_list() == old(self).filter_list(),
            final(self).self_update() == old(self).self_update(),
            final(self).pod_uids() == old(self).pod_uids(),
            Self::step_accounts(
                *old(self),
                *final(self),
                owed_by(r),
                None,
                if old(self).active().len() > 0 && (old(budget).scheduled_left == 0 || old(budget).try_left == 0) {
                    Some(old(self).active().last().uid)
                } else {
                    None
                },
            ),
            old(self).active().len() == 0 ==> {
                &&& r is Finished
                &&& final(self).active() == old(self).active()
                &&& final(self).pending() == old(self).pending()
                &&& final(self).backoff() == old(self).backoff()
                &&& final(self).attempts() == old(self).attempts()
                &&& *final(budget) == *old(budget)
                &&& !final(self).placing()
            },
            old(self).active().len() > 0 && (old(budget).scheduled_left == 0 || old(budget).try_left == 0) ==> {
                &&& r is Finished
                &&& final(self).active() == old(self).active().drop_last()
                &&& final(self).pending() == old(self).pending()
                &&& final(self).backoff() == old(self).backoff()
                &&& final(self).attempts() == old(self).attempts()
                &&& *final(budget) == *old(budget)
                &&& !final(self).placing()
            },
            old(self).active().len() > 0 && old(budget).scheduled_left > 0 && old(budget).try_left > 0 ==> {
                let x = old(self).active().last();
                let n = old(self).nodes();
                let starving = !exists|u: u64| #[trigger] n.contains_key(u) && fits(n[u], x);
                let y = PodView { cluster_resource_starvation: starving, ..x };
                let feasible = exists|u: u64|
                    #[trigger] n.contains_key(u) && fits(n[u], x) && passes_filters(old(self).filter_list(), y, n[u]);
                let a = attempts_of(old(self).attempts(), x.uid);
                &&& final(budget).try_left == old(budget).try_left - 1
                &&& final(budget).scheduled_left == old(budget).scheduled_left
                &&& final(self).active() == old(self).active().drop_last()
                &&& final(self).pending() == old(self).pending().insert(x.uid, y)
                &&& !feasible ==> {
                    &&& r == (ScheduleStep::Unschedulable { pod_uid: x.uid, second_chance: a == 0 })
                    &&& final(self).attempts() == old(self).attempts().insert(x.uid, saturating_inc(a))
                    &&& !final(self).placing()
                    &&& a == 0 ==> final(self).backoff() == old(self).backoff()
                    &&& a != 0 ==> crate::scheduler::backoff_queue::entry_inserted(
                        old(self).backoff(),
                        (crate::scheduler::backoff_queue::saturating_time_add(current_time, old(self).backoff_timeout(a)), x.uid),
                        final(self).backoff(),
                    )
                }
                &&& feasible ==> {
                    &&& r is Candidates
                    &&& r->Candidates_pod@ == y
                    &&& r->Candidates_nodes@.map_values(|c: Node| c@) == final(self).placing_candidates()
                    &&& final(self).placing()
                    &&& final(self).placing_pod() == y
                    &&& final(self).attempts() == old(self).attempts()
                    &&& final(self).backoff() == old(self).backoff()
                    &&& forall|i: int| 0 <= i < final(self).placing_candidates().len() ==> {
                        let c = #[trigger] final(self).placing_candidates()[i];
                        &&& n.contains_key(c.uid)
                        &&& n[c.uid] == c
                        &&& fits(c, x)
                        &&& passes_filters(old(self).filter_list(), y, c)
                    }
                    &&& forall|u: u64| #[trigger] n.contains_key(u) && fits(n[u], x) && passes_filters(
                        old(self).filter_list(),
                        y,
                        n[u],
                    ) ==> exists|i: int|
                        0 <= i < final(self).placing_candidates().len()
                            && (#[trigger] final(self).placing_candidates()[i]).uid == u
                }
            },
    {
        let ghost a0 = self.active();
        let popped = self.active_queue.try_pop();
        let mut pod = match popped {
            None => {
                proof {
                    Self::lemma_cache_frame(old(self), self);
                    Self::lemma_queues_frame(old(self), self);
                    Self::lemma_accounts_unchanged(*old(self), *self);
                }
                return ScheduleStep::Finished;
            },
            Some(p) => p,
        };
        let ghost x = pod@;
        proof {
            assert(x == a0[a0.len() - 1]);
            assert(self.pending().contains_key(x.uid) && self.pending()[x.uid] == x);
            assert forall|j: int| 0 <= j < self.active().len() implies (#[trigger] self.active()[j]).uid != x.uid by {
                assert(self.active()[j] == a0[j]);
                if a0[j].uid == x.uid {
                    assert(self.pending()[a0[j].uid] == a0[j]);
                    assert(crate::scheduler::active_queue::rank_lt(C::rank_of(a0[j]), C::rank_of(a0[a0.len() - 1])));
                }
            }
            assert forall|i: int| 0 <= i < self.backoff().len() implies (#[trigger] self.backoff()[i]).1 != x.uid by {
                assert(old(self).backoff()[i] == self.backoff()[i]);
                assert(!old(self).active_has(old(self).backoff()[i].1));
                assert(a0[a0.len() - 1].uid == x.uid);
            }
            assert forall|i: int| 0 <= i < self.active().len() implies self.pending().contains_key((#[trigger] self.active()[i]).uid)
                && self.pending()[self.active()[i].uid] == self.active()[i] by {
                assert(self.active()[i] == a0[i]);
            }
            assert forall|i: int| 0 <= i < self.backoff().len() implies self.pending().contains_key(
                (#[trigger] self.backoff()[i]).1) && !self.active_has(self.backoff()[i].1) by {
                assert(old(self).backoff()[i] == self.backoff()[i]);
                if self.active_has(self.backoff()[i].1) {
                    let j = choose|j: int| 0 <= j < self.active().len() && (#[trigger] self.active()[j]).uid == self.backoff()[i].1;
                    assert(self.active()[j] == a0[j]);
                }
            }
            Self::lemma_cache_frame(old(self), self);
        }
        if budget.scheduled_left == 0 || budget.try_left == 0 {
            proof {
                assert(self.pending().dom() =~= old(self).pending().dom());
                Self::lemma_accounts_pop(*old(self), *self, None, Some(x.uid));
            }
            return ScheduleStep::Finished;
        }
        budget.try_left = budget.try_left - 1;
        let pod_uid = pod.metadata.uid;
        let cpu = pod.spec.request_cpu;
        let memory = pod.spec.request_memory;
        let mut possible: Vec<Node> = Vec::new();
        self.node_rtree.find_suitable_nodes(cpu, memory, &mut possible);
        let starving = possible.len() == 0;
        let ghost n = self.nodes();
        proof {
            if starving {
                assert forall|u: u64| #[trigger] n.contains_key(u) implies !fits(n[u], x) by {
                    if fits(n[u], x) {
                        let i = choose|i: int| 0 <= i < possible@.len() && (#[trigger] possible@[i])@.uid == u;
                    }
                }
            } else {
                assert(n.contains_key(possible@[0]@.uid) && fits(n[possible@[0]@.uid], x));
            }
        }
        pod.status.cluster_resource_starvation = starving;
        let ghost y = pod@;
        proof {
            assert(starving == !exists|u: u64| #[trigger] n.contains_key(u) && fits(n[u], x));
            assert(y == PodView { cluster_resource_starvation: starving, ..x });
            assert(old(self).nodes() == n);
            assert(old(self).pending() == self.pending());
        }
        let ghost before_update = *self;
        let mut cached = self.pending_pods.remove(&pod_uid).unwrap();
        cached.status.cluster_resource_starvation = starving;
        self.pending_pods.insert(pod_uid, cached);
        proof {
            let p = self.pending();
            assert(p =~= before_update.pending().insert(pod_uid, y));
            assert forall|u: u64| #[trigger] p.contains_key(u) implies p[u].uid == u && !self.running().contains_key(u) by {
                if u != pod_uid {
                    assert(before_update.pending().contains_key(u));
                }
            }
            assert(self.cache_wf());
            assert forall|i: int| 0 <= i < self.active().len() implies p.contains_key((#[trigger] self.active()[i]).uid)
                && p[self.active()[i].uid] == self.active()[i] by {
                assert(before_update.pending().contains_key(self.active()[i].uid));
            }
            assert forall|i: int| 0 <= i < self.backoff().len() implies p.contains_key((#[trigger] self.backoff()[i]).1)
                && !self.active_has(self.backoff()[i].1) by {
                assert(before_update.pending().contains_key(self.backoff()[i].1));
            }
            assert(self.queues_wf());
        }
        // Filter the nodes that have the resources.
        let mut resulted: Vec<Node> = Vec::new();
        let mut i: usize = 0;
        while i < possible.len()
            invariant
                i <= possible.len(),
                pod@ == y,
                n == self.nodes(),
                forall|k: int| 0 <= k < possible@.len() ==> {
                    let c = #[trigger] possible@[k]@;
                    &&& n.contains_key(c.uid)
                    &&& n[c.uid] == c
                    &&& c.available_cpu >= cpu
                    &&& c.available_memory >= memory
                },
                forall|k: int| 0 <= k < resulted@.len() ==> {
                    let c = #[trigger] resulted@[k]@;
                    &&& n.contains_key(c.uid)
                    &&& n[c.uid] == c
                    &&& c.available_cpu >= cpu
                    &&& c.available_memory >= memory
                    &&& passes_filters(self.filter_list(), y, c)
                },
                forall|k: int| 0 <= k < i && passes_filters(self.filter_list(), y, #[trigger] possible@[k]@)
                    ==> exists|j: int| 0 <= j < resulted@.len() && (#[trigger] resulted@[j])@.uid == possible@[k]@.uid,
            decreases possible.len() - i,
        {
            if self.passes_all(&pod, &possible[i]) {
                let c = possible[i].clone();
                let ghost prev = resulted@;
                resulted.push(c);
                proof {
                    assert(resulted@ == prev.push(c));
                    assert(resulted@[prev.len() as int]@.uid == possible@[i as int]@.uid);
                    assert forall|k: int| 0 <= k < i + 1 && passes_filters(self.filter_list(), y, #[trigger] possible@[k]@)
                        implies exists|j: int| 0 <= j < resulted@.len() && (#[trigger] resulted@[j])@.uid == possible@[k]@.uid by {
                        if k < i {
                            let j = choose|j: int| 0 <= j < prev.len() && (#[trigger] prev[j])@.uid == possible@[k]@.uid;
                            assert(resulted@[j] == prev[j]);
                        } else {
                            assert(resulted@[prev.len() as int]@.uid == possible@[k]@.uid);
                        }
                    }
                }
            }
            i = i + 1;
        }
        proof {
            assert forall|u: u64| #[trigger] n.contains_key(u) && fits(n[u], x) && passes_filters(
                self.filter_list(),
                y,
                n[u],
            ) implies exists|j: int| 0 <= j < resulted@.len() && (#[trigger] resulted@[j])@.uid == u by {
                let k = choose|k: int| 0 <= k < possible@.len() && (#[trigger] possible@[k])@.uid == u;
                assert(possible@[k]@ == n[u]);
            }
        }
        if resulted.len() == 0 {
            let attempts: u64 = match self.failed_attempts.get(&pod_uid) {
                Some(a) => *a,
                None => 0,
            };
            let second_chance = attempts == 0;
            let ghost before_push = *self;
            if !second_chance {
                self.backoff_queue.push(pod_uid, attempts, current_time);
                proof {
                    let b = self.backoff();
                    let b0 = before_push.backoff();
                    let e = (crate::scheduler::backoff_queue::saturating_time_add(current_time, before_push.backoff_queue.timeout(attempts)), pod_uid);
                    assert(!holds_pod(b0, pod_uid)) by {
                        if holds_pod(b0, pod_uid) {
                            let k = choose|k: int| 0 <= k < b0.len() && (#[trigger] b0[k]).1 == pod_uid;
                            assert(b0[k] == old(self).backoff()[k]);
                        }
                    }
                    let k = choose|k: int|
                        0 <= k <= b0.len() && b == b0.insert(k, e) && (forall|j: int|
                            0 <= j < k ==> crate::scheduler::backoff_queue::entry_lt(#[trigger] b0[j], e)) && (forall|j: int|
                            k <= j < b0.len() ==> crate::scheduler::backoff_queue::entry_lt(e, #[trigger] b0[j]));
                    assert forall|j: int| 0 <= j < b.len() implies self.pending().contains_key((#[trigger] b[j]).1)
                        && !self.active_has(b[j].1) by {
                        if j < k {
                            assert(b[j] == b0[j]);
                        } else if j > k {
                            assert(b[j] == b0[j - 1]);
                        } else {
                            assert(b[j] == e);
                        }
                    }
                    assert(self.queues_wf());
                    assert(b0 =~= old(self).backoff()) by {
                        assert forall|j: int| 0 <= j < b0.len() implies b0[j] == old(self).backoff()[j] by {}
                    }
                    assert forall|v: u64| holds_pod(b0, v) implies holds_pod(b, v) by {
                        let j = choose|j: int| 0 <= j < b0.len() && (#[trigger] b0[j]).1 == v;
                        if j < k {
                            assert(b[j] == b0[j]);
                        } else {
                            assert(b[j + 1] == b0[j]);
                        }
                    }
                    assert forall|v: u64| holds_pod(b, v) implies holds_pod(b0, v) || v == pod_uid by {
                        let j = choose|j: int| 0 <= j < b.len() && (#[trigger] b[j]).1 == v;
                        if j < k {
                            assert(b[j] == b0[j]);
                        } else if j > k {
                            assert(b[j] == b0[j - 1]);
                        }
                    }
                    assert(b[k] == e);
                    assert(holds_pod(b, pod_uid));
                }
            }
            let next = if attempts == u64::MAX { attempts } else { attempts + 1 };
            self.failed_attempts.insert(pod_uid, next);
            proof {
                Self::lemma_cache_frame(&before_push, self);
                assert(!exists|u: u64| #[trigger] n.contains_key(u) && fits(n[u], x) && passes_filters(self.filter_list(), y, n[u])) by {
                    if exists|u: u64| #[trigger] n.contains_key(u) && fits(n[u], x) && passes_filters(self.filter_list(), y, n[u]) {
                        let u = choose|u: u64| #[trigger] n.contains_key(u) && fits(n[u], x) && passes_filters(self.filter_list(), y, n[u]);
                        let j = choose|j: int| 0 <= j < resulted@.len() && (#[trigger] resulted@[j])@.uid == u;
                    }
                }
                assert(self.attempts() =~= old(self).attempts().insert(pod_uid, saturating_inc(attempts_of(old(self).attempts(), pod_uid))));
            }
            assert(self.pending() == old(self).pending().insert(x.uid, y));
            assert(self.active() == old(self).active().drop_last());
            proof {
                assert(self.pending().dom() =~= old(self).pending().dom());
                Self::lemma_accounts_pop(*old(self), *self, if second_chance { Some(pod_uid) } else { None }, None);
            }
            return ScheduleStep::Unschedulable { pod_uid, second_chance };
        }
        let returned_nodes = resulted.clone();
        proof {
            assert forall|k: int| 0 <= k < returned_nodes@.len() implies (#[trigger] returned_nodes@[k])@ == resulted@[k]@ by {
                assert(vstd::pervasive::cloned(resulted@[k], returned_nodes@[k]));
            }
        }
        let returned_pod = pod.clone();
        self.current = Some(pod);
        self.candidates = resulted;
        proof {
            let cs = self.placing_candidates();
            assert(cs.len() == resulted@.len());
            assert forall|k: int| 0 <= k < cs.len() implies {
                &&& self.nodes().contains_key((#[trigger] cs[k]).uid)
                &&& self.nodes()[cs[k].uid] == cs[k]
                &&& cs[k].available_cpu >= y.request_cpu
                &&& cs[k].available_memory >= y.request_memory
            } by {
                assert(cs[k] == resulted@[k]@);
            }
            assert(!holds_pod(self.backoff(), pod_uid)) by {
                if holds_pod(self.backoff(), pod_uid) {
                    let k = choose|k: int| 0 <= k < self.backoff().len() && (#[trigger] self.backoff()[k]).1 == pod_uid;
                    assert(self.backoff()[k] == old(self).backoff()[k]);
                }
            }
            assert(self.placing_wf());
            assert(returned_nodes@.map_values(|c: Node| c@) =~= cs);
            assert forall|k: int| 0 <= k < cs.len() implies {
                let c = #[trigger] cs[k];
                &&& n.contains_key(c.uid)
                &&& n[c.uid] == c
                &&& fits(c, x)
                &&& passes_filters(self.filter_list(), y, c)
            } by {
                assert(cs[k] == resulted@[k]@);
            }
            assert forall|u: u64| #[trigger] n.contains_key(u) && fits(n[u], x) && passes_filters(
                self.filter_list(),
                y,
                n[u],
            ) implies exists|k: int| 0 <= k < cs.len() && (#[trigger] cs[k]).uid == u by {
                let j = choose|j: int| 0 <= j < resulted@.len() && (#[trigger] resulted@[j])@.uid == u;
                assert(cs[j] == resulted@[j]@);
            }
        }
        assert(self.pending() == old(self).pending().insert(x.uid, y));
        assert(self.active() == old(self).active().drop_last());
        assert(returned_pod@ == y);
        proof {
            let c = resulted@[0]@;
            assert(n.contains_key(c.uid) && fits(n[c.uid], x) && passes_filters(old(self).filter_list(), y, n[c.uid]));
            assert(self.pending().dom() =~= old(self).pending().dom());
            Self::lemma_accounts_pop(*old(self), *self, None, None);
        }
        ScheduleStep::Candidates { pod: returned_pod, nodes: returned_nodes }
    }
}

/// Index `b` holds the greatest total, and no earlier index holds as much.
pub open spec fn is_first_max(totals: Seq<i64>, b: int) -> bool {
    &&& 0 <= b < totals.len()
    &&& forall|j: int| 0 <= j < totals.len() ==> #[trigger] totals[j] <= totals[b]
    &&& forall|j: int| 0 <= j < b ==> #[trigger] totals[j] < totals[b]
}

/// The first index holding the greatest total.
pub fn select_best_node(totals: &Vec<i64>) -> (r: usize)
    requires
        totals.len() > 0,
    ensures
        is_first_max(totals@, r as int),
{
    let mut best: usize = 0;
    let mut max_score: i64 = totals[0];
    let mut i: usize = 0;
    while i < totals.len()
        invariant
            0 < totals.len(),
            i <= totals.len(),
            best < totals.len(),
            best <= i || (i == 0 && best == 0),
            max_score == totals@[best as int],
            forall|j: int| 0 <= j < i ==> #[trigger] totals@[j] <= max_score,
            forall|j: int| 0 <= j < best ==> #[trigger] totals@[j] < max_score,
        decreases totals.len() - i,
    {
        if totals[i] > max_score {
            max_score = totals[i];
            best = i;
        }
        i = i + 1;
    }
    best
}

impl<C: TraitActiveQCmp, B: TraitBackOffQ> Scheduler<C, B> {
    /// The node a placement puts the pod on: its resources taken and the pod
    /// added to its list.
    pub open spec fn node_after_placement(c: NodeView, pod: PodView) -> NodeView {
        NodeView {
            available_cpu: (c.available_cpu - pod.request_cpu) as u64,
            available_memory: (c.available_memory - pod.request_memory) as u64,
            pods: c.pods.push(pod.uid),
            ..c
        }
    }

    /// A pod placed on a node and then finished or evicted gives the node
    /// back exactly as it was before the placement.
    pub proof fn lemma_release_undoes_placement(before: &Self, after: &Self, m: u64, pod: PodView)
        requires
            before.nodes().contains_key(m),
            before.nodes()[m].available_cpu >= pod.request_cpu,
            before.nodes()[m].available_memory >= pod.request_memory,
            !before.nodes()[m].pods.contains(pod.uid),
            after.nodes() == before.nodes().insert(m, Self::node_after_placement(before.nodes()[m], pod)),
            after.running().contains_key(pod.uid),
            after.running()[pod.uid].node_uid == Some(m),
            after.running()[pod.uid].request_cpu == pod.request_cpu,
            after.running()[pod.uid].request_memory == pod.request_memory,
        ensures
            after.released_nodes(pod.uid) == before.nodes(),
    {
        let c = before.nodes()[m];
        let n = after.nodes()[m];
        assert(n.pods[n.pods.len() - 1] == pod.uid);
        let i = choose|i: int| 0 <= i < n.pods.len() && n.pods[i] == pod.uid;
        assert(i == n.pods.len() - 1) by {
            if i < n.pods.len() - 1 {
                assert(c.pods[i] == pod.uid);
            }
        }
        assert(n.pods.remove(i) =~= c.pods);
        assert(after.released_nodes(pod.uid) =~= before.nodes());
    }

    /// Places the pod of the current step on the candidate with the greatest
    /// total score (the first such): the pod leaves the pending set and runs
    /// on that node, which gives up the pod's requests.
    pub fn place(&mut self, totals: &Vec<i64>, budget: &mut CycleBudget) -> (r: Placement)
        requires
            old(self).wf(),
            old(self).placing(),
            totals.len() == old(self).placing_candidates().len(),
            old(budget).scheduled_left > 0,
        ensures
            final(self).wf(),
            !final(self).placing(),
            ({
                let x = old(self).placing_pod();
                let cs = old(self).placing_candidates();
                let placed = PodView { phase: PodPhase::Running, node_uid: Some(r.node_uid), ..x };
                &&& exists|b: int| is_first_max(totals@, b) && #[trigger] cs[b].uid == r.node_uid
                    && final(self).nodes() == old(self).nodes().insert(
                        r.node_uid,
                        Self::node_after_placement(cs[b], x),
                    )
                &&& r.pod@ == placed
                &&& r.cpu == x.request_cpu
                &&& r.memory == x.request_memory
                &&& final(self).running() == old(self).running().insert(x.uid, placed)
                &&& final(self).pending() == old(self).pending().remove(x.uid)
                &&& final(self).attempts() == old(self).attempts().remove(x.uid)
            }),
            final(self).active() == old(self).active(),
            final(self).backoff() == old(self).backoff(),
            final(self).known_node_uids() == old(self).known_node_uids(),
            final(self).removed() == old(self).removed(),
            final(self).filter_list() == old(self).filter_list(),
            final(self).self_update() == old(self).self_update(),
            final(budget).scheduled_left == old(budget).scheduled_left - 1,
            final(budget).try_left == old(budget).try_left,
            final(self).pod_uids() == old(self).pod_uids(),
            Self::step_accounts(*old(self), *final(self), None, Some(old(self).placing_pod().uid), None),
    {
        let ghost x = self.placing_pod();
        let ghost cs = self.placing_candidates();
        let ghost r0 = self.running();
        let ghost p0 = self.pending();
        let ghost n0 = self.nodes();
        let best = select_best_node(totals);
        let mut pod = self.current.take().unwrap();
        let mut candidates: Vec<Node> = Vec::new();
        std::mem::swap(&mut candidates, &mut self.candidates);
        assert(candidates@.map_values(|c: Node| c@) == cs);
        assert(candidates@[best as int]@ == cs[best as int]);
        let node_uid = candidates[best].metadata.uid;
        let ghost c = cs[best as int];
        let pod_uid = pod.metadata.uid;
        let cpu = pod.spec.request_cpu;
        let memory = pod.spec.request_memory;
        let ghost placed = PodView { phase: PodPhase::Running, node_uid: Some(node_uid), ..x };
        proof {
            assert(n0.contains_key(c.uid) && n0[c.uid] == c);
            assert(node_consistent(c, node_uid, r0));
            assert(!r0.contains_key(pod_uid));
            assert(!c.pods.contains(pod_uid)) by {
                if c.pods.contains(pod_uid) {
                    let i = choose|i: int| 0 <= i < c.pods.len() && c.pods[i] == pod_uid;
                    assert(r0.contains_key(c.pods[i]));
                }
            }
        }
        let mut cached = self.pending_pods.remove(&pod_uid).unwrap();
        cached.status.phase = PodPhase::Running;
        cached.status.node_uid = Some(node_uid);
        assert(cached@ == placed);
        self.running_pods.insert(pod_uid, cached);
        pod.status.node_uid = Some(node_uid);
        pod.status.phase = PodPhase::Running;
        let mut node = self.node_rtree.remove(node_uid).unwrap();
        node.consume(cpu, memory);
        node.status.pods.push(pod_uid);
        let ghost new_node = node@;
        proof {
            let r = self.running();
            assert(r =~= r0.insert(pod_uid, placed));
            assert(new_node == Self::node_after_placement(c, x));
            assert forall|j: int| 0 <= j < c.pods.len() implies #[trigger] r0[c.pods[j]] == r[c.pods[j]] by {
                assert(c.pods[j] != pod_uid);
            }
            lemma_used_frame(c.pods, r0, r);
            assert(new_node.pods.drop_last() =~= c.pods);
            assert(new_node.pods.no_duplicates()) by {
                assert forall|a: int, b: int| 0 <= a < new_node.pods.len() && 0 <= b < new_node.pods.len() && a != b
                    implies new_node.pods[a] != new_node.pods[b] by {
                    if a < c.pods.len() && b < c.pods.len() {
                        assert(new_node.pods[a] == c.pods[a] && new_node.pods[b] == c.pods[b]);
                    } else if a < c.pods.len() {
                        assert(new_node.pods[a] == c.pods[a]);
                    } else if b < c.pods.len() {
                        assert(new_node.pods[b] == c.pods[b]);
                    }
                }
            }
            assert forall|j: int| 0 <= j < new_node.pods.len() implies r.contains_key(#[trigger] new_node.pods[j])
                && r[new_node.pods[j]].node_uid == Some(node_uid) by {
                if j < c.pods.len() {
                    assert(new_node.pods[j] == c.pods[j]);
                    assert(r0.contains_key(c.pods[j]));
                }
            }
            assert(node_consistent(new_node, node_uid, r));
        }
        self.node_rtree.insert(node);
        self.failed_attempts.remove(&pod_uid);
        budget.scheduled_left = budget.scheduled_left - 1;
        proof {
            let r = self.running();
            let p = self.pending();
            let n = self.nodes();
            assert(p =~= p0.remove(pod_uid));
            assert(n =~= n0.insert(node_uid, new_node));
            assert forall|u: u64| #[trigger] r.contains_key(u) implies {
                &&& r[u].uid == u
                &&& r[u].node_uid is Some
                &&& self.known_node_uids().contains(r[u].node_uid->0)
                &&& (n.contains_key(r[u].node_uid->0) ==> n[r[u].node_uid->0].pods.contains(u))
            } by {
                if u == pod_uid {
                    assert(new_node.pods[new_node.pods.len() - 1] == pod_uid);
                } else {
                    assert(r0.contains_key(u));
                    let m = r0[u].node_uid->0;
                    if m == node_uid {
                        assert(c.pods.contains(u));
                        let a = choose|a: int| 0 <= a < c.pods.len() && c.pods[a] == u;
                        assert(new_node.pods[a] == u);
                    }
                }
            }
            assert forall|u: u64| #[trigger] p.contains_key(u) implies p[u].uid == u && !r.contains_key(u) by {
                assert(p0.contains_key(u));
            }
            assert forall|m: u64| #[trigger] n.contains_key(m) implies node_consistent(n[m], m, r)
                && self.known_node_uids().contains(m) by {
                if m != node_uid {
                    let nm = n0[m];
                    assert(node_consistent(nm, m, r0));
                    assert forall|j: int| 0 <= j < nm.pods.len() implies #[trigger] r0[nm.pods[j]] == r[nm.pods[j]] by {
                        assert(r0[nm.pods[j]].node_uid == Some(m));
                    }
                    assert forall|j: int| 0 <= j < nm.pods.len() implies r.contains_key(#[trigger] nm.pods[j])
                        && r[nm.pods[j]].node_uid == Some(m) by {
                        assert(r0[nm.pods[j]].node_uid == Some(m));
                    }
                    lemma_used_frame(nm.pods, r0, r);
                }
            }
            assert(self.cache_wf());
            assert forall|i: int| 0 <= i < self.active().len() implies p.contains_key((#[trigger] self.active()[i]).uid)
                && p[self.active()[i].uid] == self.active()[i] by {
                assert(old(self).active()[i] == self.active()[i]);
                assert(self.active()[i].uid != pod_uid);
            }
            assert forall|i: int| 0 <= i < self.backoff().len() implies p.contains_key((#[trigger] self.backoff()[i]).1)
                && !self.active_has(self.backoff()[i].1) by {
                assert(old(self).backoff()[i] == self.backoff()[i]);
                assert(self.backoff()[i].1 != pod_uid);
            }
            assert(self.queues_wf());
            assert(is_first_max(totals@, best as int) && cs[best as int].uid == node_uid);
            assert(self.pending() == old(self).pending().remove(x.uid));
            Self::lemma_accounts_place(*old(self), *self);
        }
        Placement { pod, node_uid, cpu, memory }
    }
}


/// The requests of pods pending for lack of resources: exactly those pods,
/// each once, in some order.
pub open spec fn starved_requests(pending: Map<u64, PodView>, requests: Seq<(u64, u64)>) -> bool {
    exists|us: Seq<u64>|
        {
            &&& us.no_duplicates()
            &&& forall|u: u64|
                #[trigger] us.contains(u) <==> (pending.contains_key(u) && pending[u].cluster_resource_starvation)
            &&& requests == us.map_values(|u: u64| (pending[u].request_cpu, pending[u].request_memory))
        }
}

/// The usage of a node the autoscaler asks about: uid, CPU in use and
/// installed, memory in use and installed.
pub open spec fn usage_of_node(n: NodeView) -> (u64, u64, u64, u64, u64) {
    (
        n.uid,
        (n.installed_cpu - n.available_cpu) as u64,
        n.installed_cpu,
        (n.installed_memory - n.available_memory) as u64,
        n.installed_memory,
    )
}

/// What the scheduler reports to the cluster autoscaler: how many pods are
/// pending for lack of resources and their requests, and the usage of the
/// nodes asked about that it knows.
#[derive(Debug)]
pub struct CAMetrics {
    pub insufficient_pending: u64,
    pub requests: Vec<(u64, u64)>,
    pub node_usage: Vec<(u64, u64, u64, u64, u64)>,
}

impl<C: TraitActiveQCmp, B: TraitBackOffQ> Scheduler<C, B> {
    /// The metrics the autoscaler asks for, about the nodes of `node_list`.
    pub fn ca_metrics(&self, node_list: &Vec<u64>) -> (r: CAMetrics)
        requires
            self.wf(),
        ensures
            r.insufficient_pending == r.requests@.len(),
            starved_requests(self.pending(), r.requests@),
            r.node_usage@ == node_list@.filter(|u: u64| self.nodes().contains_key(u)).map_values(
                |u: u64| usage_of_node(self.nodes()[u]),
            ),
    {
        let ghost m = self.pending_pods@;
        let mut requests: Vec<(u64, u64)> = Vec::new();
        let mut count: u64 = 0;
        let ghost mut us: Seq<u64> = Seq::empty();
        let total = self.pending_pods.len();
        let ghost pairs = vstd::std_specs::hash::spec_hash_map_iter(&self.pending_pods).remaining();
        let ghost mut k: int = 0;
        proof {
            vstd::std_specs::hash::axiom_spec_hash_map_iter(&self.pending_pods);
        }
        for (key, v) in it: self.pending_pods.iter()
            invariant
                m == self.pending_pods@,
                total as nat == m.len(),
                pairs == it.seq(),
                k == it.index(),
                pairs.no_duplicates(),
                pairs.len() == m.dom().len(),
                forall|i: int| 0 <= i < pairs.len() ==> #[trigger] m.contains_key(*pairs[i].0) && m[*pairs[i].0] == *pairs[i].1,
                forall|x: u64| #[trigger] m.contains_key(x) ==> pairs.contains((&x, &m[x])),
                count == requests@.len(),
                us.len() <= k,
                us.no_duplicates(),
                requests@ == us.map_values(|u: u64| (m[u].spec.request_cpu, m[u].spec.request_memory)),
                forall|u: u64| #[trigger] us.contains(u) <==> (exists|i: int|
                    0 <= i < k && *pairs[i].0 == u && pairs[i].1.status.cluster_resource_starvation),
        {
            let ghost idx = k;
            assert(*key == *pairs[idx].0 && *v == *pairs[idx].1);
            if v.status.cluster_resource_starvation {
                proof {
                    assert(!us.contains(*key)) by {
                        if us.contains(*key) {
                            let i = choose|i: int|
                                0 <= i < idx && *pairs[i].0 == *key && pairs[i].1.status.cluster_resource_starvation;
                            assert(m[*pairs[i].0] == *pairs[i].1);
                            assert(pairs[i] == pairs[idx]);
                        }
                    }
                }
                requests.push((v.spec.request_cpu, v.spec.request_memory));
                count = count + 1;
                proof {
                    let old_us = us;
                    us = us.push(*key);
                    assert(requests@ =~= us.map_values(|u: u64| (m[u].spec.request_cpu, m[u].spec.request_memory)));
                    assert forall|u: u64| #[trigger] us.contains(u) <==> (exists|i: int|
                        0 <= i < idx + 1 && *pairs[i].0 == u && pairs[i].1.status.cluster_resource_starvation) by {
                        if us.contains(u) {
                            if u != *key {
                                let j = choose|j: int| 0 <= j < us.len() && us[j] == u;
                                assert(j < old_us.len());
                                assert(old_us[j] == u);
                                assert(old_us.contains(u));
                                let i = choose|i: int|
                                    0 <= i < idx && *pairs[i].0 == u && pairs[i].1.status.cluster_resource_starvation;
                                assert(0 <= i < idx + 1 && *pairs[i].0 == u && pairs[i].1.status.cluster_resource_starvation);
                            } else {
                                assert(0 <= idx < idx + 1 && *pairs[idx].0 == u && pairs[idx].1.status.cluster_resource_starvation);
                            }
                        }
                        if exists|i: int|
                            0 <= i < idx + 1 && *pairs[i].0 == u && pairs[i].1.status.cluster_resource_starvation {
                            if u != *key {
                                let i = choose|i: int|
                                    0 <= i < idx + 1 && *pairs[i].0 == u && pairs[i].1.status.cluster_resource_starvation;
                                assert(i < idx);
                                assert(old_us.contains(u));
                                let j = choose|j: int| 0 <= j < old_us.len() && old_us[j] == u;
                                assert(us[j] == u);
                            } else {
                                assert(us[us.len() - 1] == u);
                            }
                        }
                    }
                }
            } else {
                proof {
                    assert forall|u: u64| #[trigger] us.contains(u) <==> (exists|i: int|
                        0 <= i < idx + 1 && *pairs[i].0 == u && pairs[i].1.status.cluster_resource_starvation) by {
                        if exists|i: int|
                            0 <= i < idx + 1 && *pairs[i].0 == u && pairs[i].1.status.cluster_resource_starvation {
                            let i = choose|i: int|
                                0 <= i < idx + 1 && *pairs[i].0 == u && pairs[i].1.status.cluster_resource_starvation;
                            assert(i < idx);
                        }
                    }
                }
            }
            proof {
                k = k + 1;
            }
        }
        assert(k == pairs.len());
        proof {
            let pv = self.pending();
            assert(pv == m.map_values(|p: Pod| p@));
            assert forall|u: u64| #[trigger] us.contains(u) <==> (pv.contains_key(u) && pv[u].cluster_resource_starvation) by {
                if pv.contains_key(u) && pv[u].cluster_resource_starvation {
                    assert(pairs.contains((&u, &m[u])));
                    let i = choose|i: int| 0 <= i < pairs.len() && pairs[i] == (&u, &m[u]);
                    assert(*pairs[i].0 == u);
                }
            }
            assert forall|i: int| 0 <= i < us.len() implies #[trigger] m.contains_key(us[i]) by {
                assert(us.contains(us[i]));
                let j = choose|j: int|
                    0 <= j < k && *pairs[j].0 == us[i] && pairs[j].1.status.cluster_resource_starvation;
            }
            assert(requests@ =~= us.map_values(|u: u64| (pv[u].request_cpu, pv[u].request_memory)));
        }
        let mut usage: Vec<(u64, u64, u64, u64, u64)> = Vec::new();
        let ghost nodes = self.nodes();
        let mut j: usize = 0;
        while j < node_list.len()
            invariant
                self.wf(),
                nodes == self.nodes(),
                j <= node_list.len(),
                usage@ == node_list@.take(j as int).filter(|u: u64| nodes.contains_key(u)).map_values(
                    |u: u64| usage_of_node(nodes[u]),
                ),
            decreases node_list.len() - j,
        {
            let u = node_list[j];
            let ghost before = usage@;
            proof {
                assert(node_list@.take(j as int + 1) =~= node_list@.take(j as int).push(u));
                node_list@.take(j as int).lemma_filter_push(u, |u: u64| nodes.contains_key(u));
            }
            match self.node_rtree.get(u) {
                Some(n) => {
                    proof {
                        self.node_rtree.lemma_wf_nodes();
                        assert(n@.available_cpu <= n@.installed_cpu && n@.available_memory <= n@.installed_memory) by {
                            assert(node_consistent(nodes[u], u, self.running()));
                        }
                    }
                    usage.push(
                        (
                            n.metadata.uid,
                            n.spec.installed_cpu - n.spec.available_cpu,
                            n.spec.installed_cpu,
                            n.spec.installed_memory - n.spec.available_memory,
                            n.spec.installed_memory,
                        ),
                    );
                    proof {
                        assert(n@.uid == u);
                        assert(usage@ =~= before.push(usage_of_node(nodes[u])));
                    }
                },
                None => {
                },
            }
            j = j + 1;
        }
        assert(node_list@.take(node_list.len() as int) =~= node_list@);
        CAMetrics { insufficient_pending: count, requests, node_usage: usage }
    }
}

} // verus!
