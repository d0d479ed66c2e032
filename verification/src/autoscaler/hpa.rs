use vstd::prelude::*;
use std::collections::HashMap;
use crate::objects::pod::PodPhase;

verus! {

broadcast use vstd::std_specs::hash::group_hash_axioms;

/// A pod in this phase will not run again.
pub open spec fn finished(p: PodPhase) -> bool {
    p == PodPhase::Succeeded || p == PodPhase::Failed || p == PodPhase::Removed
}

/// A phase the autoscaler's metrics account for.
pub open spec fn tracked_phase(p: PodPhase) -> bool {
    p != PodPhase::Unknown
}

/// The pods of the group whose last phase is running.
pub open spec fn running_set(last: Map<u64, PodPhase>) -> Set<u64> {
    last.dom().filter(|u: u64| last[u] == PodPhase::Running)
}

/// The pods of the group that have not finished.
pub open spec fn alive_set(last: Map<u64, PodPhase>) -> Set<u64> {
    last.dom().filter(|u: u64| !finished(last[u]))
}

/// The uids strictly increase along the sequence.
pub open spec fn uids_sorted(s: Seq<u64>) -> bool {
    forall|i: int, j: int| 0 <= i < j < s.len() ==> #[trigger] s[i] < #[trigger] s[j]
}

/// How the group's usage totals change with a pod's report: the pod's last
/// reported usage leaves them when it was running, its new usage joins them
/// when it runs now.
#[derive(Debug, Clone, Copy, PartialEq, Eq, Structural)]
pub struct MetricChange {
    pub subtract_last: bool,
    pub add_new: bool,
}

/// What the autoscaler does to a group.
#[derive(Debug, Clone, Copy, PartialEq, Eq, Structural)]
pub enum HPADecision {
    /// Submit one more pod of the group's template.
    AddPod,
    /// Remove the pod of this uid, the alive one of greatest uid.
    RemovePod(u64),
    /// Leave the group as it is.
    Keep,
}

/// The decision for a group of `size` alive pods whose largest uid is
/// `last_uid`, given its bounds and whether its mean usage is low (both
/// below their minimum) or high (one above its maximum): below the minimum
/// size add, above the maximum remove, then remove on low usage while above
/// the minimum, then add on high usage while below the maximum.
pub open spec fn decision_for(min_size: u64, max_size: u64, size: nat, last_uid: u64, low: bool, high: bool) -> HPADecision {
    if min_size > size {
        HPADecision::AddPod
    } else if max_size < size {
        HPADecision::RemovePod(last_uid)
    } else if min_size < size && low {
        HPADecision::RemovePod(last_uid)
    } else if max_size > size && high {
        HPADecision::AddPod
    } else {
        HPADecision::Keep
    }
}

/// A group whose size lies within its bounds stays within them after the
/// decision; one below its minimum grows and one above its maximum shrinks.
pub proof fn lemma_decision_respects_bounds(min_size: u64, max_size: u64, size: nat, last_uid: u64, low: bool, high: bool)
    ensures
        ({
            let d = decision_for(min_size, max_size, size, last_uid, low, high);
            &&& min_size <= size <= max_size ==> {
                &&& d == HPADecision::AddPod ==> size + 1 <= max_size
                &&& d is RemovePod ==> min_size <= size - 1
            }
            &&& size < min_size ==> d == HPADecision::AddPod
            &&& min_size <= size && max_size < size ==> d is RemovePod
        }),
{
}

/// The model of a scaled group: the last phase reported for each of its
/// pods, its alive pods by uid, and its number of running pods.
pub struct HPAGroupView {
    pub last_phase: Map<u64, PodPhase>,
    pub alive_uids: Seq<u64>,
    pub running_pod_count: u64,
}

/// What the autoscaler tracks of a group it scales.
pub struct HPAGroupInfo {
    running_pod_count: u64,
    alive_uids: Vec<u64>,
    last_phase: HashMap<u64, PodPhase>,
}

impl View for HPAGroupInfo {
    type V = HPAGroupView;

    closed spec fn view(&self) -> HPAGroupView {
        HPAGroupView {
            last_phase: self.last_phase@,
            alive_uids: self.alive_uids@,
            running_pod_count: self.running_pod_count,
        }
    }
}

impl HPAGroupView {
    /// The alive uids are, in increasing order, the pods not finished; the
    /// running count is the number of pods last reported running; no phase
    /// is unknown.
    pub open spec fn wf(self) -> bool {
        &&& uids_sorted(self.alive_uids)
        &&& self.alive_uids.to_set() == alive_set(self.last_phase)
        &&& self.running_pod_count == running_set(self.last_phase).len()
        &&& forall|u: u64| #[trigger] self.last_phase.contains_key(u) ==> tracked_phase(self.last_phase[u])
    }
}

impl HPAGroupInfo {
    pub open spec fn wf(&self) -> bool {
        self@.wf()
    }

    /// A group with no pods.
    pub fn new() -> (r: Self)
        ensures
            r.wf(),
            r@.last_phase == Map::<u64, PodPhase>::empty(),
            r@.alive_uids == Seq::<u64>::empty(),
            r@.running_pod_count == 0,
    {
        let r = HPAGroupInfo { running_pod_count: 0, alive_uids: Vec::new(), last_phase: HashMap::new() };
        proof {
            assert(r@.alive_uids.to_set() =~= alive_set(r@.last_phase));
            assert(running_set(r@.last_phase) =~= Set::<u64>::empty());
        }
        r
    }

    /// The last phase reported for the pod, if it is known.
    pub fn last_phase(&self, pod_uid: u64) -> (r: Option<PodPhase>)
        ensures
            r == (if self@.last_phase.contains_key(pod_uid) {
                Some(self@.last_phase[pod_uid])
            } else {
                None
            }),
    {
        match self.last_phase.get(&pod_uid) {
            Some(p) => Some(*p),
            None => None,
        }
    }

    /// The number of pods last reported running.
    pub fn running_pod_count(&self) -> (r: u64)
        ensures
            r == self@.running_pod_count,
    {
        self.running_pod_count
    }

    /// The number of alive pods.
    pub fn group_size(&self) -> (r: usize)
        ensures
            r == self@.alive_uids.len(),
    {
        self.alive_uids.len()
    }

    /// Takes in a pod of the group that is not alive in it: pending, alive.
    pub fn update_with_new_pod(&mut self, pod_uid: u64)
        requires
            old(self).wf(),
            !alive_set(old(self)@.last_phase).contains(pod_uid),
        ensures
            final(self).wf(),
            final(self)@.last_phase == old(self)@.last_phase.insert(pod_uid, PodPhase::Pending),
    {
        let ghost s = self.alive_uids@;
        let ghost m = self.last_phase@;
        proof {
            assert(!s.to_set().contains(pod_uid));
        }
        let mut i: usize = 0;
        while i < self.alive_uids.len() && self.alive_uids[i] < pod_uid
            invariant
                i <= self.alive_uids.len(),
                s == self.alive_uids@,
                forall|j: int| 0 <= j < i ==> #[trigger] s[j] < pod_uid,
            decreases self.alive_uids.len() - i,
        {
            i = i + 1;
        }
        proof {
            if i < s.len() {
                assert(s[i as int] != pod_uid) by {
                    assert(s.to_set().contains(s[i as int]));
                }
            }
        }
        self.alive_uids.insert(i, pod_uid);
        self.last_phase.insert(pod_uid, PodPhase::Pending);
        proof {
            let t = self.alive_uids@;
            let m2 = self.last_phase@;
            assert(t == s.insert(i as int, pod_uid));
            assert forall|a: int, b: int| 0 <= a < b < t.len() implies #[trigger] t[a] < #[trigger] t[b] by {
                if a < i && b < i {
                    assert(t[a] == s[a] && t[b] == s[b]);
                } else if a < i && b == i {
                    assert(t[a] == s[a]);
                } else if a < i && b > i {
                    assert(t[a] == s[a] && t[b] == s[b - 1]);
                    assert(s[a] < s[b - 1]);
                } else if a == i {
                    assert(t[b] == s[b - 1]);
                    assert(s[i as int] > pod_uid);
                    if b - 1 > i {
                        assert(s[i as int] < s[b - 1]);
                    }
                } else {
                    assert(t[a] == s[a - 1] && t[b] == s[b - 1]);
                }
            }
            assert(t.to_set() =~= alive_set(m2)) by {
                assert forall|u: u64| t.to_set().contains(u) <==> alive_set(m2).contains(u) by {
                    if t.to_set().contains(u) {
                        let j = choose|j: int| 0 <= j < t.len() && t[j] == u;
                        if j != i {
                            let jj = if j < i { j } else { j - 1 };
                            assert(s[jj] == u);
                            assert(s.to_set().contains(u));
                        }
                    }
                    if alive_set(m2).contains(u) && u != pod_uid {
                        assert(alive_set(m).contains(u));
                        assert(s.to_set().contains(u));
                        let j = choose|j: int| 0 <= j < s.len() && s[j] == u;
                        if j < i {
                            assert(t[j] == u);
                        } else {
                            assert(t[j + 1] == u);
                        }
                    }
                    if u == pod_uid {
                        assert(t[i as int] == u);
                    }
                }
            }
            assert(running_set(m2) =~= running_set(m));
        }
    }

    /// Takes in a report of a pod of the group: its new phase. The pod must
    /// be known and not finished. The running count and the alive pods follow
    /// the new phase; the result tells how the usage totals change.
    pub fn update_with_pod_metrics(&mut self, pod_uid: u64, new_phase: PodPhase) -> (r: MetricChange)
        requires
            old(self).wf(),
            old(self)@.last_phase.contains_key(pod_uid),
            !finished(old(self)@.last_phase[pod_uid]),
            tracked_phase(new_phase),
        ensures
            final(self).wf(),
            final(self)@.last_phase == old(self)@.last_phase.insert(pod_uid, new_phase),
            r.subtract_last == (old(self)@.last_phase[pod_uid] == PodPhase::Running),
            r.add_new == (new_phase == PodPhase::Running),
    {
        let ghost m = self.last_phase@;
        let ghost s = self.alive_uids@;
        let last = *self.last_phase.get(&pod_uid).unwrap();
        let was_running = match last {
            PodPhase::Running => true,
            _ => false,
        };
        let runs = match new_phase {
            PodPhase::Running => true,
            _ => false,
        };
        let ends = match new_phase {
            PodPhase::Succeeded | PodPhase::Failed | PodPhase::Removed => true,
            _ => false,
        };
        let ghost m2 = m.insert(pod_uid, new_phase);
        let known = self.last_phase.len();
        proof {
            assert(m.dom().finite());
            m.dom().lemma_len_filter(|u: u64| m[u] == PodPhase::Running);
            if was_running && !runs {
                assert(running_set(m2) =~= running_set(m).remove(pod_uid));
                assert(running_set(m).contains(pod_uid));
                vstd::set::axiom_set_remove_len(running_set(m), pod_uid);
                vstd::set::axiom_set_remove_finite(running_set(m), pod_uid);
            } else if !was_running && runs {
                assert(running_set(m2) =~= running_set(m).insert(pod_uid));
                assert(!running_set(m).contains(pod_uid));
                vstd::set::axiom_set_insert_len(running_set(m), pod_uid);
                assert(running_set(m).len() <= m.dom().len());
                assert(running_set(m).len() < m.dom().len()) by {
                    assert(running_set(m).insert(pod_uid).subset_of(m.dom()));
                    vstd::set_lib::lemma_len_subset(running_set(m).insert(pod_uid), m.dom());
                }
                assert(known == m.len());
            } else {
                assert(running_set(m2) =~= running_set(m));
            }
        }
        if was_running && !runs {
            self.running_pod_count = self.running_pod_count - 1;
        } else if !was_running && runs {
            self.running_pod_count = self.running_pod_count + 1;
        }
        if ends {
            let mut i: usize = 0;
            while i < self.alive_uids.len() && self.alive_uids[i] != pod_uid
                invariant
                    i <= self.alive_uids.len(),
                    s == self.alive_uids@,
                    forall|j: int| 0 <= j < i ==> #[trigger] s[j] != pod_uid,
                decreases self.alive_uids.len() - i,
            {
                i = i + 1;
            }
            proof {
                assert(alive_set(m).contains(pod_uid));
                assert(s.to_set().contains(pod_uid));
                let j = choose|j: int| 0 <= j < s.len() && s[j] == pod_uid;
                assert(i <= j);
            }
            self.alive_uids.remove(i);
            proof {
                let t = self.alive_uids@;
                assert(t == s.remove(i as int));
                assert forall|a: int, b: int| 0 <= a < b < t.len() implies #[trigger] t[a] < #[trigger] t[b] by {
                    let aa = if a < i { a } else { a + 1 };
                    let bb = if b < i { b } else { b + 1 };
                    assert(t[a] == s[aa] && t[b] == s[bb]);
                }
                assert(t.to_set() =~= alive_set(m2)) by {
                    assert forall|u: u64| t.to_set().contains(u) <==> alive_set(m2).contains(u) by {
                        if t.to_set().contains(u) {
                            let j = choose|j: int| 0 <= j < t.len() && t[j] == u;
                            let jj = if j < i { j } else { j + 1 };
                            assert(s[jj] == u);
                            assert(s.to_set().contains(u));
                            assert(jj != i);
                        }
                        if alive_set(m2).contains(u) {
                            assert(u != pod_uid);
                            assert(alive_set(m).contains(u));
                            assert(s.to_set().contains(u));
                            let j = choose|j: int| 0 <= j < s.len() && s[j] == u;
                            assert(j != i);
                            if j < i {
                                assert(t[j] == u);
                            } else {
                                assert(t[j - 1] == u);
                            }
                        }
                    }
                }
            }
        } else {
            proof {
                assert(s.to_set() =~= alive_set(m2)) by {
                    assert forall|u: u64| s.to_set().contains(u) <==> alive_set(m2).contains(u) by {
                        if u == pod_uid {
                            assert(alive_set(m).contains(u));
                        }
                    }
                }
            }
        }
        self.last_phase.insert(pod_uid, new_phase);
        MetricChange { subtract_last: was_running, add_new: runs }
    }

    /// The decision for the group, given its bounds and whether its mean
    /// usage is low or high.
    pub fn decide(&self, min_size: u64, max_size: u64, low: bool, high: bool) -> (r: HPADecision)
        requires
            self.wf(),
        ensures
            r == decision_for(
                min_size,
                max_size,
                self@.alive_uids.len(),
                if self@.alive_uids.len() > 0 {
                    self@.alive_uids.last()
                } else {
                    0
                },
                low,
                high,
            ),
            r matches HPADecision::RemovePod(u) ==> alive_set(self@.last_phase).contains(u),
    {
        let size = self.alive_uids.len();
        let last: u64 = if size > 0 {
            self.alive_uids[size - 1]
        } else {
            0
        };
        proof {
            if size > 0 {
                assert(self@.alive_uids.to_set().contains(self@.alive_uids[size - 1]));
            }
        }
        if (min_size as u128) > (size as u128) {
            HPADecision::AddPod
        } else if (max_size as u128) < (size as u128) {
            HPADecision::RemovePod(last)
        } else if (min_size as u128) < (size as u128) && low {
            HPADecision::RemovePod(last)
        } else if (max_size as u128) > (size as u128) && high {
            HPADecision::AddPod
        } else {
            HPADecision::Keep
        }
    }
}


/// The model of the horizontal pod autoscaler: whether it is on, and the
/// groups it scales by increasing group uid.
pub struct HPAView {
    pub turned_on: bool,
    pub group_uids: Seq<u64>,
    pub groups: Seq<HPAGroupView>,
}

/// The horizontal pod autoscaler: follows the pods of the groups that have
/// a scaling profile and adds or removes pods to keep each group within its
/// size bounds and its usage between its thresholds.
pub struct HPA {
    is_turned_on: bool,
    managed_groups: Vec<(u64, HPAGroupInfo)>,
}

impl View for HPA {
    type V = HPAView;

    closed spec fn view(&self) -> HPAView {
        HPAView {
            turned_on: self.is_turned_on,
            group_uids: self.managed_groups@.map_values(|e: (u64, HPAGroupInfo)| e.0),
            groups: self.managed_groups@.map_values(|e: (u64, HPAGroupInfo)| e.1@),
        }
    }
}

impl HPAView {
    pub open spec fn wf(self) -> bool {
        &&& uids_sorted(self.group_uids)
        &&& self.groups.len() == self.group_uids.len()
        &&& forall|k: int| 0 <= k < self.groups.len() ==> (#[trigger] self.groups[k]).wf()
    }

    /// The position of the group with this uid, if it is managed.
    pub open spec fn group_index(self, group_uid: u64) -> Option<int> {
        if exists|k: int| 0 <= k < self.group_uids.len() && #[trigger] self.group_uids[k] == group_uid {
            Some(choose|k: int| 0 <= k < self.group_uids.len() && #[trigger] self.group_uids[k] == group_uid)
        } else {
            None
        }
    }
}

impl HPA {
    pub open spec fn wf(&self) -> bool {
        self@.wf()
    }

    /// An autoscaler, turned off, scaling no group.
    pub fn new() -> (r: Self)
        ensures
            r.wf(),
            !r@.turned_on,
            r@.group_uids.len() == 0,
    {
        let r = HPA { is_turned_on: false, managed_groups: Vec::new() };
        assert(r@.group_uids =~= Seq::<u64>::empty());
        r
    }

    /// Turns the autoscaler on, telling whether it was off (its periodic
    /// update must then start).
    pub fn turn_on(&mut self) -> (r: bool)
        requires
            old(self).wf(),
        ensures
            final(self).wf(),
            r == !old(self)@.turned_on,
            final(self)@ == (HPAView { turned_on: true, ..old(self)@ }),
    {
        let was_off = !self.is_turned_on;
        self.is_turned_on = true;
        assert(self@.group_uids =~= old(self)@.group_uids);
        assert(self@.groups =~= old(self)@.groups);
        was_off
    }

    /// Turns the autoscaler off, telling whether it was on (its pending
    /// updates must then be cancelled).
    pub fn turn_off(&mut self) -> (r: bool)
        requires
            old(self).wf(),
        ensures
            final(self).wf(),
            r == old(self)@.turned_on,
            final(self)@ == (HPAView { turned_on: false, ..old(self)@ }),
    {
        let was_on = self.is_turned_on;
        self.is_turned_on = false;
        assert(self@.group_uids =~= old(self)@.group_uids);
        assert(self@.groups =~= old(self)@.groups);
        was_on
    }

    pub fn is_turned_on(&self) -> (r: bool)
        ensures
            r == self@.turned_on,
    {
        self.is_turned_on
    }

    /// The number of groups it scales.
    pub fn group_count(&self) -> (r: usize)
        ensures
            r == self@.group_uids.len(),
    {
        self.managed_groups.len()
    }

    /// The uid of the `k`-th group.
    pub fn group_uid_at(&self, k: usize) -> (r: u64)
        requires
            k < self@.group_uids.len(),
        ensures
            r == self@.group_uids[k as int],
    {
        self.managed_groups[k].0
    }

    /// The position of the group with this uid, if it is managed.
    fn find(&self, group_uid: u64) -> (r: (usize, bool))
        requires
            self.wf(),
        ensures
            r.0 <= self@.group_uids.len(),
            forall|j: int| 0 <= j < r.0 ==> #[trigger] self@.group_uids[j] < group_uid,
            r.1 ==> r.0 < self@.group_uids.len() && self@.group_uids[r.0 as int] == group_uid,
            !r.1 ==> forall|j: int| r.0 <= j < self@.group_uids.len() ==> group_uid < #[trigger] self@.group_uids[j],
    {
        let ghost g = self@.group_uids;
        let mut i: usize = 0;
        while i < self.managed_groups.len() && self.managed_groups[i].0 < group_uid
            invariant
                i <= self.managed_groups.len(),
                g == self@.group_uids,
                forall|j: int| 0 <= j < i ==> #[trigger] g[j] < group_uid,
            decreases self.managed_groups.len() - i,
        {
            assert(g[i as int] == self.managed_groups@[i as int].0);
            i = i + 1;
        }
        let found = i < self.managed_groups.len() && self.managed_groups[i].0 == group_uid;
        proof {
            if i < g.len() {
                assert(g[i as int] == self.managed_groups@[i as int].0);
            }
            if !found {
                assert forall|j: int| i <= j < g.len() implies group_uid < #[trigger] g[j] by {
                    if j > i {
                        assert(g[i as int] < g[j]);
                    }
                }
            }
        }
        (i, found)
    }

    /// Whether it scales the group with this uid.
    pub fn manages(&self, group_uid: u64) -> (r: bool)
        requires
            self.wf(),
        ensures
            r == self@.group_uids.contains(group_uid),
    {
        let (i, found) = self.find(group_uid);
        proof {
            if self@.group_uids.contains(group_uid) {
                let j = choose|j: int| 0 <= j < self@.group_uids.len() && self@.group_uids[j] == group_uid;
                if !found {
                    if j < i {
                        assert(self@.group_uids[j] < group_uid);
                    } else {
                        assert(group_uid < self@.group_uids[j]);
                    }
                }
            }
        }
        found
    }

    /// Takes in a pod submitted to the cluster. A pod with a scaling profile
    /// joins its group, which is scaled from then on; the result tells
    /// whether the pod was taken.
    pub fn on_add_pod(&mut self, group_uid: u64, pod_uid: u64, has_hpa_profile: bool) -> (r: bool)
        requires
            old(self).wf(),
            forall|k: int|
                0 <= k < old(self)@.group_uids.len() && #[trigger] old(self)@.group_uids[k] == group_uid
                    ==> !alive_set(old(self)@.groups[k].last_phase).contains(pod_uid),
        ensures
            final(self).wf(),
            r == has_hpa_profile,
            final(self)@.turned_on == old(self)@.turned_on,
            !has_hpa_profile ==> final(self)@ == old(self)@,
            has_hpa_profile ==> final(self)@.group_uids.contains(group_uid),
            has_hpa_profile ==> forall|k: int|
                0 <= k < final(self)@.group_uids.len() && #[trigger] final(self)@.group_uids[k] == group_uid
                    ==> final(self)@.groups[k].last_phase == (if old(self)@.group_uids.contains(group_uid) {
                    old(self)@.groups[old(self)@.group_uids.index_of(group_uid)].last_phase
                } else {
                    Map::empty()
                }).insert(pod_uid, PodPhase::Pending),
            has_hpa_profile ==> forall|u: u64|
                u != group_uid ==> (#[trigger] final(self)@.group_uids.contains(u) == old(self)@.group_uids.contains(u)),
    {
        if !has_hpa_profile {
            return false;
        }
        let ghost old_uids = self@.group_uids;
        let ghost old_groups = self@.groups;
        let (i, found) = self.find(group_uid);
        let mut info = if found {
            let (_, info) = self.managed_groups.remove(i);
            info
        } else {
            HPAGroupInfo::new()
        };
        proof {
            if found {
                assert(old_uids.index_of(group_uid) == i) by {
                    old_uids.index_of_first_ensures(group_uid);
                    let j = old_uids.index_of(group_uid);
                    if j < i {
                        assert(old_uids[j] < group_uid);
                    }
                }
                assert(info@ == old_groups[i as int]);
                assert(info.wf());
            } else {
                assert(!old_uids.contains(group_uid)) by {
                    if old_uids.contains(group_uid) {
                        let j = choose|j: int| 0 <= j < old_uids.len() && old_uids[j] == group_uid;
                        if j < i {
                            assert(old_uids[j] < group_uid);
                        } else {
                            assert(group_uid < old_uids[j]);
                        }
                    }
                }
                assert(!alive_set(info@.last_phase).contains(pod_uid));
            }
        }
        info.update_with_new_pod(pod_uid);
        let ghost new_info = info@;
        self.managed_groups.insert(i, (group_uid, info));
        proof {
            let mg_old = old(self).managed_groups@;
            let mg = self.managed_groups@;
            let gu = self@.group_uids;
            let gs = self@.groups;
            if found {
                assert(mg =~= mg_old.update(i as int, (group_uid, info)));
            } else {
                assert(mg =~= mg_old.insert(i as int, (group_uid, info)));
            }
            assert(gs[i as int] == new_info);
            assert forall|a: int, b: int| 0 <= a < b < gu.len() implies #[trigger] gu[a] < #[trigger] gu[b] by {
                if found {
                    assert(gu[a] == old_uids[a] && gu[b] == old_uids[b]);
                } else if a < i && b < i {
                    assert(gu[a] == old_uids[a] && gu[b] == old_uids[b]);
                } else if a < i && b == i {
                    assert(gu[a] == old_uids[a]);
                } else if a < i && b > i {
                    assert(gu[a] == old_uids[a] && gu[b] == old_uids[b - 1]);
                } else if a == i {
                    assert(gu[b] == old_uids[b - 1]);
                } else {
                    assert(gu[a] == old_uids[a - 1] && gu[b] == old_uids[b - 1]);
                }
            }
            assert forall|k: int| 0 <= k < gs.len() implies (#[trigger] gs[k]).wf() by {
                if k != i {
                    let kk = if found || k < i { k } else { k - 1 };
                    assert(gs[k] == old_groups[kk]);
                }
            }
            assert(gu[i as int] == group_uid);
            assert forall|k: int| 0 <= k < gu.len() && #[trigger] gu[k] == group_uid implies k == i by {
                if k < i {
                    assert(gu[k] < gu[i as int]);
                } else if k > i {
                    assert(gu[i as int] < gu[k]);
                }
            }
            assert forall|u: u64| u != group_uid implies (#[trigger] gu.contains(u) == old_uids.contains(u)) by {
                if gu.contains(u) {
                    let k = choose|k: int| 0 <= k < gu.len() && gu[k] == u;
                    let kk = if found || k < i { k } else { k - 1 };
                    assert(k != i);
                    assert(old_uids[kk] == u);
                }
                if old_uids.contains(u) {
                    let k = choose|k: int| 0 <= k < old_uids.len() && old_uids[k] == u;
                    if found || k < i {
                        assert(gu[k] == u);
                    } else {
                        assert(gu[k + 1] == u);
                    }
                }
            }
        }
        true
    }

    /// Takes in the report of a pod of a group. For a group it scales the
    /// pod's phase is updated and the result tells how the group's usage
    /// totals change; other groups are ignored.
    pub fn on_pod_metrics(&mut self, group_uid: u64, pod_uid: u64, new_phase: PodPhase) -> (r: Option<MetricChange>)
        requires
            old(self).wf(),
            tracked_phase(new_phase),
            forall|k: int|
                0 <= k < old(self)@.group_uids.len() && #[trigger] old(self)@.group_uids[k] == group_uid ==> {
                    &&& old(self)@.groups[k].last_phase.contains_key(pod_uid)
                    &&& !finished(old(self)@.groups[k].last_phase[pod_uid])
                },
        ensures
            final(self).wf(),
            final(self)@.turned_on == old(self)@.turned_on,
            final(self)@.group_uids == old(self)@.group_uids,
            !old(self)@.group_uids.contains(group_uid) ==> r is None && final(self)@ == old(self)@,
            forall|k: int|
                0 <= k < old(self)@.group_uids.len() && #[trigger] old(self)@.group_uids[k] == group_uid ==> {
                    let last = old(self)@.groups[k].last_phase;
                    &&& r == Some(
                        MetricChange {
                            subtract_last: last[pod_uid] == PodPhase::Running,
                            add_new: new_phase == PodPhase::Running,
                        },
                    )
                    &&& final(self)@.groups == old(self)@.groups.update(
                        k,
                        HPAGroupView { last_phase: last.insert(pod_uid, new_phase), ..final(self)@.groups[k] },
                    )
                },
    {
        let ghost old_uids = self@.group_uids;
        let ghost old_groups = self@.groups;
        let (i, found) = self.find(group_uid);
        if !found {
            proof {
                assert(!old_uids.contains(group_uid)) by {
                    if old_uids.contains(group_uid) {
                        let j = choose|j: int| 0 <= j < old_uids.len() && old_uids[j] == group_uid;
                        if j < i {
                            assert(old_uids[j] < group_uid);
                        } else {
                            assert(group_uid < old_uids[j]);
                        }
                    }
                }
            }
            return None;
        }
        let (_, mut info) = self.managed_groups.remove(i);
        assert(info@ == old_groups[i as int]);
        let change = info.update_with_pod_metrics(pod_uid, new_phase);
        let ghost new_info = info@;
        self.managed_groups.insert(i, (group_uid, info));
        proof {
            let mg_old = old(self).managed_groups@;
            let mg = self.managed_groups@;
            assert(mg =~= mg_old.update(i as int, (group_uid, info)));
            let gu = self@.group_uids;
            let gs = self@.groups;
            assert(gu =~= old_uids);
            assert(gs =~= old_groups.update(i as int, new_info));
            assert forall|k: int| 0 <= k < gs.len() implies (#[trigger] gs[k]).wf() by {
                if k != i {
                    assert(gs[k] == old_groups[k]);
                }
            }
            assert forall|k: int| 0 <= k < old_uids.len() && #[trigger] old_uids[k] == group_uid implies k == i by {
                if k < i {
                    assert(old_uids[k] < old_uids[i as int]);
                } else if k > i {
                    assert(old_uids[i as int] < old_uids[k]);
                }
            }
        }
        Some(change)
    }

    /// The decision for the `k`-th group, given its bounds and whether its
    /// mean usage is low or high.
    pub fn decide_at(&self, k: usize, min_size: u64, max_size: u64, low: bool, high: bool) -> (r: HPADecision)
        requires
            self.wf(),
            k < self@.group_uids.len(),
        ensures
            ({
                let g = self@.groups[k as int];
                r == decision_for(
                    min_size,
                    max_size,
                    g.alive_uids.len(),
                    if g.alive_uids.len() > 0 {
                        g.alive_uids.last()
                    } else {
                        0
                    },
                    low,
                    high,
                )
            }),
    {
        assert(self@.groups[k as int] == self.managed_groups@[k as int].1@);
        self.managed_groups[k].1.decide(min_size, max_size, low, high)
    }

    /// The number of pods of the `k`-th group last reported running.
    pub fn running_count_at(&self, k: usize) -> (r: u64)
        requires
            k < self@.group_uids.len(),
        ensures
            r == self@.groups[k as int].running_pod_count,
    {
        assert(self@.groups[k as int] == self.managed_groups@[k as int].1@);
        self.managed_groups[k].1.running_pod_count()
    }

    /// The last phase reported for a pod of a group it scales, if known.
    pub fn pod_phase(&self, group_uid: u64, pod_uid: u64) -> (r: Option<PodPhase>)
        requires
            self.wf(),
        ensures
            forall|k: int|
                0 <= k < self@.group_uids.len() && #[trigger] self@.group_uids[k] == group_uid ==> r == (
                if self@.groups[k].last_phase.contains_key(pod_uid) {
                    Some(self@.groups[k].last_phase[pod_uid])
                } else {
                    None
                }),
            !self@.group_uids.contains(group_uid) ==> r is None,
    {
        let (i, found) = self.find(group_uid);
        if !found {
            proof {
                if self@.group_uids.contains(group_uid) {
                    let j = choose|j: int| 0 <= j < self@.group_uids.len() && self@.group_uids[j] == group_uid;
                    if j < i {
                        assert(self@.group_uids[j] < group_uid);
                    } else {
                        assert(group_uid < self@.group_uids[j]);
                    }
                }
            }
            return None;
        }
        proof {
            assert forall|k: int| 0 <= k < self@.group_uids.len() && #[trigger] self@.group_uids[k] == group_uid implies k
                == i by {
                if k < i {
                    assert(self@.group_uids[k] < self@.group_uids[i as int]);
                } else if k > i {
                    assert(self@.group_uids[i as int] < self@.group_uids[k]);
                }
            }
            assert(self@.groups[i as int] == self.managed_groups@[i as int].1@);
        }
        self.managed_groups[i].1.last_phase(pod_uid)
    }

    /// The number of alive pods of the `k`-th group.
    pub fn group_size_at(&self, k: usize) -> (r: usize)
        requires
            k < self@.group_uids.len(),
        ensures
            r == self@.groups[k as int].alive_uids.len(),
    {
        assert(self@.groups[k as int] == self.managed_groups@[k as int].1@);
        self.managed_groups[k].1.group_size()
    }
}

/// The scaling ladder of a group of `size` alive pods, checked in order:
/// below its minimum size a pod is added; otherwise above its maximum the
/// newest alive pod is removed; otherwise, above its minimum with low usage
/// the newest is removed; otherwise, below its maximum with high usage a pod
/// is added, whether or not usage is also low; otherwise the group is kept.
pub proof fn lemma_decision_ladder(min_size: u64, max_size: u64, size: nat, last_uid: u64, low: bool, high: bool)
    ensures
        size < min_size ==> decision_for(min_size, max_size, size, last_uid, low, high) == HPADecision::AddPod,
        min_size <= size && max_size < size ==> decision_for(min_size, max_size, size, last_uid, low, high)
            == HPADecision::RemovePod(last_uid),
        min_size < size && size <= max_size && low ==> decision_for(min_size, max_size, size, last_uid, low, high)
            == HPADecision::RemovePod(last_uid),
        min_size <= size && size < max_size && high && !(min_size < size && low) ==> decision_for(
            min_size,
            max_size,
            size,
            last_uid,
            low,
            high,
        ) == HPADecision::AddPod,
        min_size <= size && size < max_size && high && !low ==> decision_for(min_size, max_size, size, last_uid, low, high)
            == HPADecision::AddPod,
        min_size <= size && size <= max_size && !(min_size < size && low) && !(size < max_size && high)
            ==> decision_for(min_size, max_size, size, last_uid, low, high) == HPADecision::Keep,
        !low && !high && min_size <= size && size <= max_size ==> decision_for(
            min_size,
            max_size,
            size,
            last_uid,
            low,
            high,
        ) == HPADecision::Keep,
{
}

} // verus!
