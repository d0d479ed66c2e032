use vstd::prelude::*;
use crate::kubelet::eviction_order::{
    key_added, key_dropped, key_less, key_lt, keys_sorted, lemma_key_added_at, lemma_key_present, EvictionOrder,
};
use crate::objects::node::Node;
use crate::objects::pod::{qos_rank, Pod, PodPhase, PodView};

verus! {

/// A pod run by a kubelet: what orders its eviction, what bounds its usage,
/// and its current usage (milli-CPU and bytes).
#[derive(Debug, Clone, Copy, PartialEq, Eq, Structural)]
pub struct KubeletPod {
    pub uid: u64,
    pub qos: u8,
    pub priority: i64,
    pub request_cpu: u64,
    pub request_memory: u64,
    pub limit_cpu: u64,
    pub limit_memory: u64,
    pub cpu: i64,
    pub memory: i64,
}

/// What a kubelet reports to the API server about a pod: its new phase and
/// its usage, with the requests that usage is measured against.
#[derive(Debug, Clone, Copy, PartialEq, Eq, Structural)]
pub struct PodUpdate {
    pub pod_uid: u64,
    pub phase: PodPhase,
    pub cpu: i64,
    pub memory: i64,
    pub request_cpu: u64,
    pub request_memory: u64,
}

/// The reports a kubelet sends after a pod event, in order, and whether the
/// pod keeps running with a load whose next change must be awaited.
#[derive(Debug)]
pub struct KubeletOutcome {
    pub updates: Vec<PodUpdate>,
    pub started: bool,
}

/// The eviction key of a pod: QoS rank, priority, uid.
pub open spec fn key_of(p: KubeletPod) -> (u8, i64, u64) {
    (p.qos, p.priority, p.uid)
}

pub open spec fn keys_of(s: Seq<KubeletPod>) -> Seq<(u8, i64, u64)> {
    s.map_values(|p: KubeletPod| key_of(p))
}

/// CPU used by the pods.
pub open spec fn cpu_sum(s: Seq<KubeletPod>) -> int
    decreases s.len(),
{
    if s.len() == 0 {
        0
    } else {
        cpu_sum(s.drop_last()) + s.last().cpu
    }
}

/// Memory used by the pods.
pub open spec fn memory_sum(s: Seq<KubeletPod>) -> int
    decreases s.len(),
{
    if s.len() == 0 {
        0
    } else {
        memory_sum(s.drop_last()) + s.last().memory
    }
}

/// The pod's usage stays within its limits.
pub open spec fn within_limits(p: KubeletPod, cpu: i64, memory: i64) -> bool {
    cpu <= p.limit_cpu && memory <= p.limit_memory
}

/// Some pod has this uid.
pub open spec fn holds_uid(s: Seq<KubeletPod>, uid: u64) -> bool {
    exists|i: int| 0 <= i < s.len() && (#[trigger] s[i]).uid == uid
}

/// The position of the pod with this uid.
pub open spec fn uid_index(s: Seq<KubeletPod>, uid: u64) -> int {
    choose|i: int| 0 <= i < s.len() && (#[trigger] s[i]).uid == uid
}

/// The pods without the one of this uid.
pub open spec fn without_uid(s: Seq<KubeletPod>, uid: u64) -> Seq<KubeletPod> {
    if holds_uid(s, uid) {
        s.remove(uid_index(s, uid))
    } else {
        s
    }
}

/// No two pods share a uid.
pub open spec fn uids_distinct(s: Seq<KubeletPod>) -> bool {
    forall|i: int, j: int| 0 <= i < s.len() && 0 <= j < s.len() && i != j ==> (#[trigger] s[i]).uid != (#[trigger] s[j]).uid
}

/// The report of a pod that leaves with this phase and usage.
pub open spec fn update_of(p: KubeletPod, phase: PodPhase, cpu: i64, memory: i64) -> PodUpdate {
    PodUpdate {
        pod_uid: p.uid,
        phase: phase,
        cpu: cpu,
        memory: memory,
        request_cpu: p.request_cpu,
        request_memory: p.request_memory,
    }
}

/// The reports of pods evicted with their usage.
pub open spec fn eviction_updates(s: Seq<KubeletPod>) -> Seq<PodUpdate> {
    s.map_values(|p: KubeletPod| update_of(p, PodPhase::Evicted, p.cpu, p.memory))
}

/// How many pods, taken in eviction order, must leave for the node to fit:
/// none once nothing available is negative, else the first pod and then as
/// many as the rest needs.
pub open spec fn evict_count(s: Seq<KubeletPod>, available_cpu: int, available_memory: int) -> nat
    decreases s.len(),
{
    if (available_cpu >= 0 && available_memory >= 0) || s.len() == 0 {
        0
    } else {
        1 + evict_count(s.drop_first(), available_cpu + s[0].cpu, available_memory + s[0].memory)
    }
}

/// The pods after the preemption of those whose uids are listed, in turn.
pub open spec fn after_preemption(s: Seq<KubeletPod>, uids: Seq<u64>) -> Seq<KubeletPod>
    decreases uids.len(),
{
    if uids.len() == 0 {
        s
    } else {
        after_preemption(without_uid(s, uids[0]), uids.drop_first())
    }
}

/// The reports of the preempted pods, in the order of the list.
pub open spec fn preemption_updates(s: Seq<KubeletPod>, uids: Seq<u64>) -> Seq<PodUpdate>
    decreases uids.len(),
{
    if uids.len() == 0 {
        Seq::empty()
    } else {
        let first = if holds_uid(s, uids[0]) {
            let p = s[uid_index(s, uids[0])];
            seq![update_of(p, PodPhase::Preempted, p.cpu, p.memory)]
        } else {
            Seq::empty()
        };
        first + preemption_updates(without_uid(s, uids[0]), uids.drop_first())
    }
}

/// `s` with `p` put where its eviction key places it.
pub open spec fn pod_added(s: Seq<KubeletPod>, p: KubeletPod) -> Seq<KubeletPod>
    decreases s.len(),
{
    if s.len() == 0 {
        seq![p]
    } else if key_lt(key_of(p), key_of(s[0])) {
        seq![p] + s
    } else {
        seq![s[0]] + pod_added(s.drop_first(), p)
    }
}

/// The kubelet's record of a pod running with this usage.
pub open spec fn kubelet_pod_of(pod: PodView, cpu: i64, memory: i64) -> KubeletPod {
    KubeletPod {
        uid: pod.uid,
        qos: qos_rank(pod.qos_class) as u8,
        priority: pod.priority,
        request_cpu: pod.request_cpu,
        request_memory: pod.request_memory,
        limit_cpu: pod.limit_cpu,
        limit_memory: pod.limit_memory,
        cpu: cpu,
        memory: memory,
    }
}

/// The reports of pods sent back to pending with no usage.
pub open spec fn pending_updates(s: Seq<KubeletPod>) -> Seq<PodUpdate> {
    s.map_values(|p: KubeletPod| update_of(p, PodPhase::Pending, 0, 0))
}

/// The uids a scheduler asks to preempt, none when there is no list.
pub open spec fn preempt_list(uids: Option<Vec<u64>>) -> Seq<u64> {
    match uids {
        Some(v) => v@,
        None => Seq::empty(),
    }
}

proof fn lemma_sum_remove(s: Seq<KubeletPod>, i: int)
    requires
        0 <= i < s.len(),
    ensures
        cpu_sum(s.remove(i)) == cpu_sum(s) - s[i].cpu,
        memory_sum(s.remove(i)) == memory_sum(s) - s[i].memory,
    decreases s.len(),
{
    if i == s.len() - 1 {
        assert(s.remove(i) =~= s.drop_last());
    } else {
        lemma_sum_remove(s.drop_last(), i);
        assert(s.remove(i).drop_last() =~= s.drop_last().remove(i));
        assert(s.remove(i).last() == s.last());
    }
}

proof fn lemma_sum_insert(s: Seq<KubeletPod>, i: int, p: KubeletPod)
    requires
        0 <= i <= s.len(),
    ensures
        cpu_sum(s.insert(i, p)) == cpu_sum(s) + p.cpu,
        memory_sum(s.insert(i, p)) == memory_sum(s) + p.memory,
{
    lemma_sum_remove(s.insert(i, p), i);
    assert(s.insert(i, p).remove(i) =~= s);
}

proof fn lemma_sum_nonneg(s: Seq<KubeletPod>)
    requires
        forall|i: int| 0 <= i < s.len() ==> (#[trigger] s[i]).cpu >= 0 && s[i].memory >= 0,
    ensures
        cpu_sum(s) >= 0,
        memory_sum(s) >= 0,
    decreases s.len(),
{
    if s.len() > 0 {
        lemma_sum_nonneg(s.drop_last());
    }
}

proof fn lemma_pod_added_at(s: Seq<KubeletPod>, p: KubeletPod, i: int)
    requires
        0 <= i <= s.len(),
        forall|j: int| 0 <= j < i ==> key_lt(key_of(#[trigger] s[j]), key_of(p)),
        forall|j: int| i <= j < s.len() ==> key_lt(key_of(p), key_of(#[trigger] s[j])),
    ensures
        pod_added(s, p) == s.insert(i, p),
    decreases s.len(),
{
    if s.len() == 0 {
        assert(s.insert(i, p) =~= seq![p]);
    } else if i == 0 {
        assert(s.insert(0, p) =~= seq![p] + s);
    } else {
        assert(key_lt(key_of(s[0]), key_of(p)));
        assert(!key_lt(key_of(p), key_of(s[0])));
        let t = s.drop_first();
        assert forall|j: int| 0 <= j < i - 1 implies key_lt(key_of(#[trigger] t[j]), key_of(p)) by {
            assert(t[j] == s[j + 1]);
        }
        assert forall|j: int| i - 1 <= j < t.len() implies key_lt(key_of(p), key_of(#[trigger] t[j])) by {
            assert(t[j] == s[j + 1]);
        }
        lemma_pod_added_at(t, p, i - 1);
        assert(s.insert(i, p) =~= seq![s[0]] + t.insert(i - 1, p));
    }
}

/// The model of a kubelet: the node it runs, its resources, and its pods in
/// eviction order.
pub struct KubeletView {
    pub node_uid: u64,
    pub installed_cpu: i64,
    pub installed_memory: i64,
    pub available_cpu: i64,
    pub available_memory: i64,
    pub pods: Seq<KubeletPod>,
    pub turned_on: bool,
}

/// The agent of a node: runs the pods placed there, accounts for their usage
/// and evicts pods when the node runs short.
pub struct Kubelet {
    node_uid: u64,
    installed_cpu: i64,
    installed_memory: i64,
    available_cpu: i64,
    available_memory: i64,
    pods: Vec<KubeletPod>,
    eviction_order: EvictionOrder,
    is_turned_on: bool,
}

impl View for Kubelet {
    type V = KubeletView;

    closed spec fn view(&self) -> KubeletView {
        KubeletView {
            node_uid: self.node_uid,
            installed_cpu: self.installed_cpu,
            installed_memory: self.installed_memory,
            available_cpu: self.available_cpu,
            available_memory: self.available_memory,
            pods: self.pods@,
            turned_on: self.is_turned_on,
        }
    }
}

impl KubeletView {
    /// Nothing available is negative.
    pub open spec fn settled(self) -> bool {
        self.available_cpu >= 0 && self.available_memory >= 0
    }

    /// The ledger: what is available is what is installed less what the pods
    /// use; pods are in eviction order, one per uid, with usage not negative.
    pub open spec fn accounted(self) -> bool {
        &&& self.available_cpu == self.installed_cpu - cpu_sum(self.pods)
        &&& self.available_memory == self.installed_memory - memory_sum(self.pods)
        &&& self.installed_cpu >= 0
        &&& self.installed_memory >= 0
        &&& keys_sorted(keys_of(self.pods))
        &&& uids_distinct(self.pods)
        &&& forall|i: int| 0 <= i < self.pods.len() ==> (#[trigger] self.pods[i]).cpu >= 0 && self.pods[i].memory >= 0
    }
}

impl Kubelet {
    pub closed spec fn wf(&self) -> bool {
        &&& self@.accounted()
        &&& self.eviction_order.wf()
        &&& self.eviction_order@ == keys_of(self.pods@)
    }

    /// A sound kubelet keeps its ledger: what is available is what is
    /// installed less what its pods use, pods in eviction order, one per uid.
    pub proof fn lemma_wf_accounted(&self)
        requires
            self.wf(),
        ensures
            self@.accounted(),
    {
    }

    /// A kubelet, turned off, for a node whose resources are all available.
    pub fn new(node: &Node) -> (r: Self)
        requires
            node@.installed_cpu <= i64::MAX,
            node@.installed_memory <= i64::MAX,
            node@.available_cpu == node@.installed_cpu,
            node@.available_memory == node@.installed_memory,
        ensures
            r.wf(),
            r@.settled(),
            r@ == (KubeletView {
                node_uid: node@.uid,
                installed_cpu: node@.installed_cpu as i64,
                installed_memory: node@.installed_memory as i64,
                available_cpu: node@.installed_cpu as i64,
                available_memory: node@.installed_memory as i64,
                pods: Seq::empty(),
                turned_on: false,
            }),
    {
        let r = Kubelet {
            node_uid: node.metadata.uid,
            installed_cpu: node.spec.installed_cpu as i64,
            installed_memory: node.spec.installed_memory as i64,
            available_cpu: node.spec.installed_cpu as i64,
            available_memory: node.spec.installed_memory as i64,
            pods: Vec::new(),
            eviction_order: EvictionOrder::new(),
            is_turned_on: false,
        };
        assert(keys_of(r.pods@) =~= Seq::<(u8, i64, u64)>::empty());
        r
    }

    /// Whether this kubelet runs the pod.
    pub fn holds(&self, pod_uid: u64) -> (r: bool)
        ensures
            r == holds_uid(self@.pods, pod_uid),
    {
        self.find(pod_uid).is_some()
    }

    fn find(&self, pod_uid: u64) -> (r: Option<usize>)
        ensures
            match r {
                Some(i) => i < self@.pods.len() && self@.pods[i as int].uid == pod_uid,
                None => !holds_uid(self@.pods, pod_uid),
            },
    {
        let mut i: usize = 0;
        while i < self.pods.len()
            invariant
                i <= self.pods.len(),
                forall|j: int| 0 <= j < i ==> (#[trigger] self.pods@[j]).uid != pod_uid,
            decreases self.pods.len() - i,
        {
            if self.pods[i].uid == pod_uid {
                return Some(i);
            }
            i = i + 1;
        }
        None
    }

    /// The usage of the pod, if this kubelet runs it.
    pub fn usage_of(&self, pod_uid: u64) -> (r: Option<(i64, i64)>)
        requires
            self.wf(),
        ensures
            holds_uid(self@.pods, pod_uid) ==> r == Some(
                (self@.pods[uid_index(self@.pods, pod_uid)].cpu, self@.pods[uid_index(self@.pods, pod_uid)].memory),
            ),
            !holds_uid(self@.pods, pod_uid) ==> r is None,
    {
        match self.find(pod_uid) {
            Some(i) => {
                proof {
                    let j = uid_index(self@.pods, pod_uid);
                    assert(self@.pods[j].uid == pod_uid);
                    assert(uids_distinct(self@.pods));
                    assert(j == i);
                }
                Some((self.pods[i].cpu, self.pods[i].memory))
            },
            None => None,
        }
    }

    /// The pods it runs, in eviction order, with their usage.
    pub fn usages(&self) -> (r: Vec<(u64, i64, i64)>)
        ensures
            r@ == self@.pods.map_values(|p: KubeletPod| (p.uid, p.cpu, p.memory)),
    {
        let mut r: Vec<(u64, i64, i64)> = Vec::new();
        let mut i: usize = 0;
        while i < self.pods.len()
            invariant
                i <= self.pods.len(),
                r@ == self@.pods.take(i as int).map_values(|p: KubeletPod| (p.uid, p.cpu, p.memory)),
            decreases self.pods.len() - i,
        {
            let p = self.pods[i];
            r.push((p.uid, p.cpu, p.memory));
            assert(self@.pods.take(i as int + 1) =~= self@.pods.take(i as int).push(p));
            assert(r@ =~= self@.pods.take(i as int + 1).map_values(|p: KubeletPod| (p.uid, p.cpu, p.memory)));
            i = i + 1;
        }
        assert(self@.pods.take(i as int) =~= self@.pods);
        r
    }

    pub fn is_turned_on(&self) -> (r: bool)
        ensures
            r == self@.turned_on,
    {
        self.is_turned_on
    }

    pub fn node_uid(&self) -> (r: u64)
        ensures
            r == self@.node_uid,
    {
        self.node_uid
    }

    pub fn turn_on(&mut self)
        requires
            old(self).wf(),
        ensures
            final(self).wf(),
            final(self)@ == (KubeletView { turned_on: true, ..old(self)@ }),
    {
        self.is_turned_on = true;
    }

    /// Takes out the pod at position `i`, giving its resources back.
    fn take_at(&mut self, i: usize) -> (r: KubeletPod)
        requires
            old(self).wf(),
            i < old(self)@.pods.len(),
        ensures
            final(self).wf(),
            r == old(self)@.pods[i as int],
            final(self)@.available_cpu == old(self)@.available_cpu + r.cpu,
            final(self)@.available_memory == old(self)@.available_memory + r.memory,
            final(self)@ == (KubeletView {
                available_cpu: (old(self)@.available_cpu + r.cpu) as i64,
                available_memory: (old(self)@.available_memory + r.memory) as i64,
                pods: old(self)@.pods.remove(i as int),
                ..old(self)@
            }),
    {
        let ghost s = self.pods@;
        proof {
            lemma_sum_remove(s, i as int);
            lemma_sum_nonneg(s.remove(i as int));
            assert forall|j: int| 0 <= j < s.remove(i as int).len() implies (#[trigger] s.remove(i as int)[j]).cpu
                >= 0 && s.remove(i as int)[j].memory >= 0 by {
                let jj = if j < i { j } else { j + 1 };
                assert(s.remove(i as int)[j] == s[jj]);
            }
        }
        let p = self.pods.remove(i);
        let ghost k = key_of(p);
        proof {
            assert(keys_of(s)[i as int] == k);
            lemma_key_present(keys_of(s), k, i as int);
            assert(keys_of(s).remove(i as int) =~= keys_of(self.pods@));
            let t = self.pods@;
            let ks = keys_of(s);
            assert forall|a: int, b: int| 0 <= a < b < keys_of(t).len() implies key_lt(
                #[trigger] keys_of(t)[a],
                #[trigger] keys_of(t)[b],
            ) by {
                let aa = if a < i { a } else { a + 1 };
                let bb = if b < i { b } else { b + 1 };
                assert(keys_of(t)[a] == ks[aa] && keys_of(t)[b] == ks[bb]);
            }
            assert forall|a: int, b: int| 0 <= a < t.len() && 0 <= b < t.len() && a != b implies (#[trigger] t[a]).uid
                != (#[trigger] t[b]).uid by {
                let aa = if a < i { a } else { a + 1 };
                let bb = if b < i { b } else { b + 1 };
                assert(t[a] == s[aa] && t[b] == s[bb]);
            }
        }
        self.eviction_order.remove(key_of_exec(&p));
        self.available_cpu = self.available_cpu + p.cpu;
        self.available_memory = self.available_memory + p.memory;
        p
    }

    /// Starts a pod whose uid it does not hold, taking its usage.
    fn put(&mut self, p: KubeletPod)
        requires
            old(self).wf(),
            old(self)@.settled(),
            !holds_uid(old(self)@.pods, p.uid),
            0 <= p.cpu,
            0 <= p.memory,
        ensures
            final(self).wf(),
            final(self)@ == (KubeletView {
                available_cpu: (old(self)@.available_cpu - p.cpu) as i64,
                available_memory: (old(self)@.available_memory - p.memory) as i64,
                pods: pod_added(old(self)@.pods, p),
                ..old(self)@
            }),
    {
        let ghost s = self.pods@;
        let k = key_of_exec(&p);
        let mut i: usize = 0;
        while i < self.pods.len() && key_less(key_of_exec(&self.pods[i]), k)
            invariant
                self.wf(),
                self.pods@ == s,
                k == key_of(p),
                i <= self.pods.len(),
                forall|j: int| 0 <= j < i ==> key_lt(key_of(#[trigger] s[j]), k),
            decreases self.pods.len() - i,
        {
            i = i + 1;
        }
        proof {
            let ks = keys_of(s);
            if i < s.len() {
                assert(s[i as int].uid != p.uid);
                assert(key_lt(k, ks[i as int])) by {
                    assert(ks[i as int] == key_of(s[i as int]));
                }
            }
            assert forall|j: int| i <= j < s.len() implies key_lt(key_of(p), key_of(#[trigger] s[j])) by {
                assert(ks[j] == key_of(s[j]));
                if j > i {
                    assert(key_lt(ks[i as int], ks[j]));
                }
            }
            assert forall|j: int| 0 <= j < i implies key_lt(#[trigger] ks[j], k) by {
                assert(ks[j] == key_of(s[j]));
            }
            assert forall|j: int| i <= j < ks.len() implies key_lt(k, #[trigger] ks[j]) by {
                assert(ks[j] == key_of(s[j]));
            }
            lemma_pod_added_at(s, p, i as int);
            lemma_key_added_at(ks, k, i as int);
            assert(keys_of(s.insert(i as int, p)) =~= ks.insert(i as int, k));
            lemma_sum_insert(s, i as int, p);
            let t = s.insert(i as int, p);
            assert forall|a: int, b: int| 0 <= a < t.len() && 0 <= b < t.len() && a != b implies (#[trigger] t[a]).uid
                != (#[trigger] t[b]).uid by {
                if a == i {
                    let bb = if b < i { b } else { b - 1 };
                    assert(t[b] == s[bb]);
                } else if b == i {
                    let aa = if a < i { a } else { a - 1 };
                    assert(t[a] == s[aa]);
                } else {
                    let aa = if a < i { a } else { a - 1 };
                    let bb = if b < i { b } else { b - 1 };
                    assert(t[a] == s[aa] && t[b] == s[bb]);
                }
            }
            assert forall|j: int| 0 <= j < t.len() implies (#[trigger] t[j]).cpu >= 0 && t[j].memory >= 0 by {
                if j < i {
                    assert(t[j] == s[j]);
                } else if j > i {
                    assert(t[j] == s[j - 1]);
                }
            }
            let kt = ks.insert(i as int, k);
            assert forall|a: int, b: int| 0 <= a < b < kt.len() implies key_lt(#[trigger] kt[a], #[trigger] kt[b]) by {
                if a < i && b > i {
                    assert(key_lt(ks[a], k));
                    assert(key_lt(k, ks[b - 1]));
                } else if a > i {
                    assert(kt[a] == ks[a - 1] && kt[b] == ks[b - 1]);
                } else if a < i && b < i {
                    assert(kt[a] == ks[a] && kt[b] == ks[b]);
                }
            }
        }
        self.pods.insert(i, p);
        self.eviction_order.add(k);
        self.available_cpu = self.available_cpu - p.cpu;
        self.available_memory = self.available_memory - p.memory;
    }

    /// Takes out a pod it runs, giving its resources back, and reports it
    /// with the phase it ends in and its last usage unless another is given.
    pub fn remove_pod_with_restoring_resources(
        &mut self,
        pod_uid: u64,
        end_phase: PodPhase,
        end_cpu: Option<i64>,
        end_memory: Option<i64>,
    ) -> (r: PodUpdate)
        requires
            old(self).wf(),
            holds_uid(old(self)@.pods, pod_uid),
            end_phase != PodPhase::Running,
        ensures
            final(self).wf(),
            old(self)@.settled() ==> final(self)@.settled(),
            ({
                let p = old(self)@.pods[uid_index(old(self)@.pods, pod_uid)];
                &&& final(self)@ == (KubeletView {
                    available_cpu: (old(self)@.available_cpu + p.cpu) as i64,
                    available_memory: (old(self)@.available_memory + p.memory) as i64,
                    pods: without_uid(old(self)@.pods, pod_uid),
                    ..old(self)@
                })
                &&& r == update_of(
                    p,
                    end_phase,
                    match end_cpu {
                        Some(c) => c,
                        None => p.cpu,
                    },
                    match end_memory {
                        Some(m) => m,
                        None => p.memory,
                    },
                )
            }),
    {
        let i = self.find(pod_uid).unwrap();
        proof {
            let j = uid_index(self@.pods, pod_uid);
            assert(self@.pods[j].uid == pod_uid);
        }
        let p = self.take_at(i);
        let cpu = match end_cpu {
            Some(c) => c,
            None => p.cpu,
        };
        let memory = match end_memory {
            Some(m) => m,
            None => p.memory,
        };
        PodUpdate {
            pod_uid: p.uid,
            phase: end_phase,
            cpu,
            memory,
            request_cpu: p.request_cpu,
            request_memory: p.request_memory,
        }
    }

    /// Runs a pod the scheduler placed here, first preempting the pods it
    /// names, with the usage its load starts with. A pod over its limits
    /// fails at once. A pod that does not fit runs anyway and pods are then
    /// evicted in eviction order until the node fits.
    pub fn add_new_pod(&mut self, pod: &Pod, preempt_uids: &Option<Vec<u64>>, cpu: i64, memory: i64) -> (r: KubeletOutcome)
        requires
            old(self).wf(),
            old(self)@.settled(),
            0 <= cpu,
            0 <= memory,
            !holds_uid(after_preemption(old(self)@.pods, preempt_list(*preempt_uids)), pod@.uid),
        ensures
            final(self).wf(),
            final(self)@.settled(),
            final(self)@.node_uid == old(self)@.node_uid,
            final(self)@.installed_cpu == old(self)@.installed_cpu,
            final(self)@.installed_memory == old(self)@.installed_memory,
            final(self)@.turned_on == old(self)@.turned_on,
            ({
                let s1 = after_preemption(old(self)@.pods, preempt_list(*preempt_uids));
                let u1 = preemption_updates(old(self)@.pods, preempt_list(*preempt_uids));
                let kp = kubelet_pod_of(pod@, cpu, memory);
                let start = update_of(kp, PodPhase::Running, 0, 0);
                if !within_limits(kp, cpu, memory) {
                    &&& final(self)@.pods == s1
                    &&& r.updates@ == u1 + seq![start, update_of(kp, PodPhase::Failed, cpu, memory)]
                    &&& !r.started
                } else {
                    let s2 = pod_added(s1, kp);
                    let n = evict_count(
                        s2,
                        old(self)@.installed_cpu - cpu_sum(s2),
                        old(self)@.installed_memory - memory_sum(s2),
                    ) as int;
                    &&& n <= s2.len()
                    &&& final(self)@.pods == s2.skip(n)
                    &&& r.updates@ == u1 + seq![start, update_of(kp, PodPhase::Running, cpu, memory)]
                        + eviction_updates(s2.take(n))
                    &&& r.started
                }
            }),
    {
        let ghost uids = preempt_list(*preempt_uids);
        let mut updates: Vec<PodUpdate> = Vec::new();
        match preempt_uids {
            Some(list) => {
                let mut k: usize = 0;
                assert(uids.skip(0) =~= uids);
                assert(updates@ + preemption_updates(self@.pods, uids) =~= preemption_updates(self@.pods, uids));
                while k < list.len()
                    invariant
                        self.wf(),
                        self@.settled(),
                        uids == list@,
                        k <= list.len(),
                        self@.node_uid == old(self)@.node_uid,
                        self@.installed_cpu == old(self)@.installed_cpu,
                        self@.installed_memory == old(self)@.installed_memory,
                        self@.turned_on == old(self)@.turned_on,
                        after_preemption(old(self)@.pods, uids) == after_preemption(
                            self@.pods,
                            uids.skip(k as int),
                        ),
                        preemption_updates(old(self)@.pods, uids) == updates@ + preemption_updates(
                            self@.pods,
                            uids.skip(k as int),
                        ),
                    decreases list.len() - k,
                {
                    let uid = list[k];
                    let ghost before = self@;
                    let ghost rest = uids.skip(k as int);
                    assert(rest[0] == uid);
                    assert(rest.drop_first() =~= uids.skip(k as int + 1));
                    if self.holds(uid) {
                        let u = self.remove_pod_with_restoring_resources(uid, PodPhase::Preempted, None, None);
                        let ghost prev = updates@;
                        updates.push(u);
                        proof {
                            let p = before.pods[uid_index(before.pods, uid)];
                            assert(u == update_of(p, PodPhase::Preempted, p.cpu, p.memory));
                            assert(updates@ =~= prev + seq![u]);
                            assert(preemption_updates(before.pods, rest) =~= seq![u] + preemption_updates(
                                without_uid(before.pods, uid),
                                rest.drop_first(),
                            ));
                            assert(prev + preemption_updates(before.pods, rest) =~= updates@
                                + preemption_updates(self@.pods, uids.skip(k as int + 1)));
                        }
                    } else {
                        assert(preemption_updates(before.pods, rest) =~= Seq::<PodUpdate>::empty()
                            + preemption_updates(before.pods, rest.drop_first()));
                    }
                    k = k + 1;
                }
                assert(uids.skip(list.len() as int) =~= Seq::<u64>::empty());
            },
            None => {
            },
        }
        let ghost s1 = self@.pods;
        assert(s1 == after_preemption(old(self)@.pods, uids));
        assert(updates@ == preemption_updates(old(self)@.pods, uids));
        let kp = KubeletPod {
            uid: pod.metadata.uid,
            qos: pod.status.qos_class.rank(),
            priority: pod.spec.priority,
            request_cpu: pod.spec.request_cpu,
            request_memory: pod.spec.request_memory,
            limit_cpu: pod.spec.limit_cpu,
            limit_memory: pod.spec.limit_memory,
            cpu,
            memory,
        };
        assert(kp == kubelet_pod_of(pod@, cpu, memory));
        updates.push(PodUpdate {
            pod_uid: kp.uid,
            phase: PodPhase::Running,
            cpu: 0,
            memory: 0,
            request_cpu: kp.request_cpu,
            request_memory: kp.request_memory,
        });
        if !(cpu as u64 <= kp.limit_cpu && memory as u64 <= kp.limit_memory) {
            updates.push(PodUpdate {
                pod_uid: kp.uid,
                phase: PodPhase::Failed,
                cpu,
                memory,
                request_cpu: kp.request_cpu,
                request_memory: kp.request_memory,
            });
            return KubeletOutcome { updates, started: false };
        }
        let need_eviction = !(self.available_cpu >= cpu && self.available_memory >= memory);
        self.put(kp);
        updates.push(PodUpdate {
            pod_uid: kp.uid,
            phase: PodPhase::Running,
            cpu,
            memory,
            request_cpu: kp.request_cpu,
            request_memory: kp.request_memory,
        });
        let ghost s2 = self@.pods;
        let ghost u2 = updates@;
        if need_eviction {
            let evicted = self.do_eviction();
            let mut j: usize = 0;
            while j < evicted.len()
                invariant
                    j <= evicted.len(),
                    updates@ == u2 + evicted@.take(j as int),
                decreases evicted.len() - j,
            {
                updates.push(evicted[j]);
                assert(evicted@.take(j as int + 1) =~= evicted@.take(j as int).push(evicted@[j as int]));
                j = j + 1;
            }
            assert(evicted@.take(evicted.len() as int) =~= evicted@);
        } else {
            assert(s2.skip(0) =~= s2);
            assert(eviction_updates(s2.take(0)) =~= Seq::<PodUpdate>::empty());
            assert(updates@ =~= u2 + Seq::<PodUpdate>::empty());
        }
        KubeletOutcome { updates, started: true }
    }

    /// Takes the usage a running pod's load changed to. A finished load
    /// ends the pod as succeeded, usage over its limits fails it; otherwise
    /// it runs on with the new usage, pods being evicted if the node no
    /// longer fits.
    pub fn on_pod_next_change(&mut self, pod_uid: u64, new_cpu: i64, new_memory: i64, is_finished: bool) -> (r: KubeletOutcome)
        requires
            old(self).wf(),
            old(self)@.settled(),
            holds_uid(old(self)@.pods, pod_uid),
            0 <= new_cpu,
            0 <= new_memory,
        ensures
            final(self).wf(),
            final(self)@.settled(),
            final(self)@.node_uid == old(self)@.node_uid,
            final(self)@.installed_cpu == old(self)@.installed_cpu,
            final(self)@.installed_memory == old(self)@.installed_memory,
            final(self)@.turned_on == old(self)@.turned_on,
            ({
                let p = old(self)@.pods[uid_index(old(self)@.pods, pod_uid)];
                let s0 = without_uid(old(self)@.pods, pod_uid);
                if is_finished {
                    &&& final(self)@.pods == s0
                    &&& r.updates@ == seq![update_of(p, PodPhase::Succeeded, 0, 0)]
                    &&& !r.started
                } else if !within_limits(p, new_cpu, new_memory) {
                    &&& final(self)@.pods == s0
                    &&& r.updates@ == seq![update_of(p, PodPhase::Failed, new_cpu, new_memory)]
                    &&& !r.started
                } else {
                    let p2 = KubeletPod { cpu: new_cpu, memory: new_memory, ..p };
                    let s2 = pod_added(s0, p2);
                    let n = evict_count(
                        s2,
                        old(self)@.installed_cpu - cpu_sum(s2),
                        old(self)@.installed_memory - memory_sum(s2),
                    ) as int;
                    &&& n <= s2.len()
                    &&& final(self)@.pods == s2.skip(n)
                    &&& r.updates@ == seq![update_of(p2, PodPhase::Running, new_cpu, new_memory)]
                        + eviction_updates(s2.take(n))
                    &&& r.started
                }
            }),
    {
        let i = self.find(pod_uid).unwrap();
        proof {
            let j = uid_index(self@.pods, pod_uid);
            assert(self@.pods[j].uid == pod_uid);
        }
        let p = self.take_at(i);
        let mut updates: Vec<PodUpdate> = Vec::new();
        if is_finished {
            updates.push(PodUpdate {
                pod_uid: p.uid,
                phase: PodPhase::Succeeded,
                cpu: 0,
                memory: 0,
                request_cpu: p.request_cpu,
                request_memory: p.request_memory,
            });
            return KubeletOutcome { updates, started: false };
        }
        if !(new_cpu as u64 <= p.limit_cpu && new_memory as u64 <= p.limit_memory) {
            updates.push(PodUpdate {
                pod_uid: p.uid,
                phase: PodPhase::Failed,
                cpu: new_cpu,
                memory: new_memory,
                request_cpu: p.request_cpu,
                request_memory: p.request_memory,
            });
            return KubeletOutcome { updates, started: false };
        }
        let p2 = KubeletPod { cpu: new_cpu, memory: new_memory, ..p };
        let need_eviction = !(self.available_cpu >= new_cpu && self.available_memory >= new_memory);
        proof {
            assert(!holds_uid(self@.pods, p2.uid)) by {
                if holds_uid(self@.pods, p2.uid) {
                    let j = choose|j: int| 0 <= j < self@.pods.len() && (#[trigger] self@.pods[j]).uid == p2.uid;
                    let jj = if j < i { j } else { j + 1 };
                    assert(old(self)@.pods[jj].uid == pod_uid);
                }
            }
        }
        self.put(p2);
        updates.push(PodUpdate {
            pod_uid: p2.uid,
            phase: PodPhase::Running,
            cpu: new_cpu,
            memory: new_memory,
            request_cpu: p2.request_cpu,
            request_memory: p2.request_memory,
        });
        let ghost s2 = self@.pods;
        let ghost u2 = updates@;
        if need_eviction {
            let evicted = self.do_eviction();
            let mut j: usize = 0;
            while j < evicted.len()
                invariant
                    j <= evicted.len(),
                    updates@ == u2 + evicted@.take(j as int),
                decreases evicted.len() - j,
            {
                updates.push(evicted[j]);
                assert(evicted@.take(j as int + 1) =~= evicted@.take(j as int).push(evicted@[j as int]));
                j = j + 1;
            }
            assert(evicted@.take(evicted.len() as int) =~= evicted@);
        } else {
            assert(s2.skip(0) =~= s2);
            assert(eviction_updates(s2.take(0)) =~= Seq::<PodUpdate>::empty());
            assert(updates@ =~= u2 + Seq::<PodUpdate>::empty());
        }
        KubeletOutcome { updates, started: true }
    }

    /// Shuts the kubelet down: every pod goes back to pending with no usage,
    /// all resources become available again.
    pub fn turn_off(&mut self) -> (r: Vec<PodUpdate>)
        requires
            old(self).wf(),
        ensures
            final(self).wf(),
            final(self)@ == (KubeletView {
                available_cpu: old(self)@.installed_cpu,
                available_memory: old(self)@.installed_memory,
                pods: Seq::empty(),
                turned_on: false,
                ..old(self)@
            }),
            r@ == pending_updates(old(self)@.pods),
    {
        let ghost s0 = self@.pods;
        let mut r: Vec<PodUpdate> = Vec::new();
        while self.pods.len() > 0
            invariant
                self.wf(),
                r@.len() <= s0.len(),
                self@.pods == s0.skip(r@.len() as int),
                self@.node_uid == old(self)@.node_uid,
                self@.installed_cpu == old(self)@.installed_cpu,
                self@.installed_memory == old(self)@.installed_memory,
                self@.turned_on == old(self)@.turned_on,
                r@ == pending_updates(s0.take(r@.len() as int)),
            decreases self.pods.len(),
        {
            let ghost m = r@.len();
            let ghost before = self@;
            let p = self.take_at(0);
            proof {
                assert(before.pods.drop_first() =~= before.pods.remove(0));
                assert(s0.skip(m as int + 1) =~= s0.skip(m as int).drop_first());
                assert(s0.take(m as int + 1) =~= s0.take(m as int).push(s0[m as int]));
            }
            r.push(PodUpdate {
                pod_uid: p.uid,
                phase: PodPhase::Pending,
                cpu: 0,
                memory: 0,
                request_cpu: p.request_cpu,
                request_memory: p.request_memory,
            });
            assert(pending_updates(s0.take(m as int + 1)) =~= pending_updates(s0.take(m as int)).push(
                update_of(p, PodPhase::Pending, 0, 0),
            ));
        }
        assert(s0.take(s0.len() as int) =~= s0);
        assert(cpu_sum(self@.pods) == 0 && memory_sum(self@.pods) == 0);
        assert(self@.pods =~= Seq::<KubeletPod>::empty());
        self.is_turned_on = false;
        r
    }

    /// Puts the kubelet, turned off and empty, on another node whose
    /// resources are all available.
    pub fn replace_node(&mut self, new_node: &Node)
        requires
            old(self).wf(),
            !old(self)@.turned_on,
            old(self)@.pods.len() == 0,
            new_node@.installed_cpu <= i64::MAX,
            new_node@.installed_memory <= i64::MAX,
            new_node@.available_cpu == new_node@.installed_cpu,
            new_node@.available_memory == new_node@.installed_memory,
        ensures
            final(self).wf(),
            final(self)@ == (KubeletView {
                node_uid: new_node@.uid,
                installed_cpu: new_node@.installed_cpu as i64,
                installed_memory: new_node@.installed_memory as i64,
                available_cpu: new_node@.installed_cpu as i64,
                available_memory: new_node@.installed_memory as i64,
                pods: Seq::empty(),
                turned_on: false,
            }),
    {
        *self = Kubelet::new(new_node);
    }

    /// Evicts pods in eviction order until nothing available is negative.
    pub fn do_eviction(&mut self) -> (r: Vec<PodUpdate>)
        requires
            old(self).wf(),
            !old(self)@.settled(),
        ensures
            final(self).wf(),
            final(self)@.settled(),
            ({
                let n = evict_count(
                    old(self)@.pods,
                    old(self)@.available_cpu as int,
                    old(self)@.available_memory as int,
                ) as int;
                &&& n <= old(self)@.pods.len()
                &&& final(self)@ == (KubeletView {
                    available_cpu: final(self)@.available_cpu,
                    available_memory: final(self)@.available_memory,
                    pods: old(self)@.pods.skip(n),
                    ..old(self)@
                })
                &&& r@ == eviction_updates(old(self)@.pods.take(n))
            }),
    {
        let ghost s0 = self@.pods;
        let ghost n0 = evict_count(s0, self@.available_cpu as int, self@.available_memory as int);
        let mut r: Vec<PodUpdate> = Vec::new();
        while self.pods.len() > 0 && (self.available_cpu < 0 || self.available_memory < 0)
            invariant
                self.wf(),
                r@.len() <= s0.len(),
                self@.pods == s0.skip(r@.len() as int),
                self@.node_uid == old(self)@.node_uid,
                self@.installed_cpu == old(self)@.installed_cpu,
                self@.installed_memory == old(self)@.installed_memory,
                self@.turned_on == old(self)@.turned_on,
                n0 == r@.len() + evict_count(self@.pods, self@.available_cpu as int, self@.available_memory as int),
                r@ == eviction_updates(s0.take(r@.len() as int)),
            decreases self.pods.len(),
        {
            let ghost before = self@;
            let ghost m = r@.len();
            assert(evict_count(before.pods, before.available_cpu as int, before.available_memory as int) == 1
                + evict_count(
                before.pods.drop_first(),
                before.available_cpu + before.pods[0].cpu,
                before.available_memory + before.pods[0].memory,
            ));
            let p = self.take_at(0);
            proof {
                assert(self@.available_cpu as int == before.available_cpu + p.cpu);
                assert(self@.available_memory as int == before.available_memory + p.memory);
                assert(before.pods.drop_first() =~= before.pods.remove(0));
                assert(s0.skip(m as int + 1) =~= s0.skip(m as int).drop_first());
                assert(s0.take(m as int + 1) =~= s0.take(m as int).push(s0[m as int]));
            }
            r.push(PodUpdate {
                pod_uid: p.uid,
                phase: PodPhase::Evicted,
                cpu: p.cpu,
                memory: p.memory,
                request_cpu: p.request_cpu,
                request_memory: p.request_memory,
            });
            assert(eviction_updates(s0.take(m as int + 1)) =~= eviction_updates(s0.take(m as int)).push(
                update_of(p, PodPhase::Evicted, p.cpu, p.memory),
            ));
        }
        proof {
            if self.pods.len() == 0 {
                assert(cpu_sum(self@.pods) == 0);
                assert(memory_sum(self@.pods) == 0);
            }
        }
        r
    }
}

/// The eviction key of a pod.
fn key_of_exec(p: &KubeletPod) -> (r: (u8, i64, u64))
    ensures
        r == key_of(*p),
{
    (p.qos, p.priority, p.uid)
}

} // verus!
