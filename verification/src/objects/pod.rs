use vstd::prelude::*;
use crate::objects::labels::StringMap;
use crate::objects::object_meta::ObjectMeta;
use crate::objects::uid::UidCounter;
use crate::scheduler::features::node_affinity::{NodeAffinity, NodeAffinityView};
use crate::scheduler::features::taints_tolerations::{clone_tolerations, Toleration};

verus! {

/// Resources, priority and placement constraints a pod asks for. Its arrival
/// time and load profile, which are real numbers, are kept by the simulation
/// around the library.
#[derive(Debug)]
pub struct PodSpec {
    pub request_cpu: u64,
    pub request_memory: u64,
    pub limit_cpu: u64,
    pub limit_memory: u64,
    pub priority: i64,
    pub node_selector: StringMap,
    pub tolerations: Vec<Toleration>,
    pub node_affinity: NodeAffinity,
}

/// Life-cycle phase of a pod.
#[derive(Debug, Clone, Copy, PartialEq, Eq, Structural)]
pub enum PodPhase {
    Pending,
    Running,
    Succeeded,
    Failed,
    Unknown,
    Evicted,
    Preempted,
    Removed,
}

impl Default for PodPhase {
    fn default() -> (r: Self)
        ensures
            r == PodPhase::Pending,
    {
        PodPhase::Pending
    }
}

/// Quality-of-service class of a pod; pods of a lower class are evicted
/// first.
#[derive(Debug, Clone, Copy, PartialEq, Eq, Structural)]
pub enum QoSClass {
    BestEffort,
    Burstable,
    Guaranteed,
}

impl Default for QoSClass {
    fn default() -> (r: Self)
        ensures
            r == QoSClass::BestEffort,
    {
        QoSClass::BestEffort
    }
}

/// The position of a class in the order BestEffort < Burstable < Guaranteed.
pub open spec fn qos_rank(q: QoSClass) -> int {
    match q {
        QoSClass::BestEffort => 0,
        QoSClass::Burstable => 1,
        QoSClass::Guaranteed => 2,
    }
}

impl QoSClass {
    pub fn rank(&self) -> (r: u8)
        ensures
            r as int == qos_rank(*self),
    {
        match self {
            QoSClass::BestEffort => 0,
            QoSClass::Burstable => 1,
            QoSClass::Guaranteed => 2,
        }
    }
}

#[derive(Debug, Clone, Copy)]
pub struct PodStatus {
    pub phase: PodPhase,
    pub node_uid: Option<u64>,
    pub qos_class: QoSClass,
    pub cluster_resource_starvation: bool,
}

#[derive(Debug)]
pub struct Pod {
    pub spec: PodSpec,
    pub metadata: ObjectMeta,
    pub status: PodStatus,
}

/// The model of a pod.
pub struct PodView {
    pub request_cpu: u64,
    pub request_memory: u64,
    pub limit_cpu: u64,
    pub limit_memory: u64,
    pub priority: i64,
    pub node_selector: Seq<(Seq<char>, Seq<char>)>,
    pub tolerations: Seq<Toleration>,
    pub node_affinity: NodeAffinityView,
    pub labels: Seq<(Seq<char>, Seq<char>)>,
    pub uid: u64,
    pub group_uid: u64,
    pub phase: PodPhase,
    pub node_uid: Option<u64>,
    pub qos_class: QoSClass,
    pub cluster_resource_starvation: bool,
}

impl View for Pod {
    type V = PodView;

    open spec fn view(&self) -> PodView {
        PodView {
            request_cpu: self.spec.request_cpu,
            request_memory: self.spec.request_memory,
            limit_cpu: self.spec.limit_cpu,
            limit_memory: self.spec.limit_memory,
            priority: self.spec.priority,
            node_selector: self.spec.node_selector@,
            tolerations: self.spec.tolerations@,
            node_affinity: self.spec.node_affinity@,
            labels: self.metadata.labels@,
            uid: self.metadata.uid,
            group_uid: self.metadata.group_uid,
            phase: self.status.phase,
            node_uid: self.status.node_uid,
            qos_class: self.status.qos_class,
            cluster_resource_starvation: self.status.cluster_resource_starvation,
        }
    }
}

impl Clone for Pod {
    fn clone(&self) -> (r: Self)
        ensures
            r@ == self@,
    {
        Pod {
            spec: PodSpec {
                request_cpu: self.spec.request_cpu,
                request_memory: self.spec.request_memory,
                limit_cpu: self.spec.limit_cpu,
                limit_memory: self.spec.limit_memory,
                priority: self.spec.priority,
                node_selector: self.spec.node_selector.clone(),
                tolerations: clone_tolerations(&self.spec.tolerations),
                node_affinity: self.spec.node_affinity.clone(),
            },
            metadata: self.metadata.clone(),
            status: self.status,
        }
    }
}

/// A limit of zero means "no limit", kept as the largest value.
pub open spec fn effective_limit(limit: u64) -> u64 {
    if limit == 0 {
        u64::MAX
    } else {
        limit
    }
}

/// The class of a pod with these requests and (effective) limits: Guaranteed
/// when requests equal limits, else Burstable when both limits are set, else
/// BestEffort.
pub open spec fn qos_class_of(request_cpu: u64, request_memory: u64, limit_cpu: u64, limit_memory: u64) -> QoSClass {
    if request_cpu == limit_cpu && request_memory == limit_memory {
        QoSClass::Guaranteed
    } else if limit_cpu < u64::MAX && limit_memory < u64::MAX {
        QoSClass::Burstable
    } else {
        QoSClass::BestEffort
    }
}

impl PodView {
    /// What `Pod::prepare` makes of a pod: a fresh uid, its group, the Pending
    /// phase on no node, effective limits and the class they give.
    pub open spec fn prepared(self, uid: u64, group_uid: u64) -> PodView {
        PodView {
            uid: uid,
            group_uid: group_uid,
            phase: PodPhase::Pending,
            node_uid: None,
            limit_cpu: effective_limit(self.limit_cpu),
            limit_memory: effective_limit(self.limit_memory),
            qos_class: qos_class_of(
                self.request_cpu,
                self.request_memory,
                effective_limit(self.limit_cpu),
                effective_limit(self.limit_memory),
            ),
            ..self
        }
    }

    /// Limits, where set, are not below requests.
    pub open spec fn limits_cover_requests(self) -> bool {
        &&& effective_limit(self.limit_cpu) >= self.request_cpu
        &&& effective_limit(self.limit_memory) >= self.request_memory
    }
}

impl Default for Pod {
    /// A pod that asks for nothing: no resources, priority 0, no constraints,
    /// uid 0, pending on no node.
    fn default() -> (r: Self)
        ensures
            r@.request_cpu == 0,
            r@.request_memory == 0,
            r@.limit_cpu == 0,
            r@.limit_memory == 0,
            r@.priority == 0,
            r@.node_selector.len() == 0,
            r@.tolerations.len() == 0,
            r@.node_affinity.terms.len() == 0,
            r@.labels.len() == 0,
            r@.uid == 0,
            r@.group_uid == 0,
            r@.phase == PodPhase::Pending,
            r@.node_uid is None,
            r@.qos_class == QoSClass::BestEffort,
            !r@.cluster_resource_starvation,
    {
        Pod {
            spec: PodSpec {
                request_cpu: 0,
                request_memory: 0,
                limit_cpu: 0,
                limit_memory: 0,
                priority: 0,
                node_selector: StringMap::new(),
                tolerations: Vec::new(),
                node_affinity: NodeAffinity::default(),
            },
            metadata: ObjectMeta::new(),
            status: PodStatus {
                phase: PodPhase::Pending,
                node_uid: None,
                qos_class: QoSClass::BestEffort,
                cluster_resource_starvation: false,
            },
        }
    }
}

impl Pod {
    /// Readies a pod of a group for submission. Group 0 and limits below
    /// requests are not accepted.
    pub fn prepare(&mut self, group_uid: u64, uids: &mut UidCounter)
        requires
            group_uid != 0,
            old(self)@.limits_cover_requests(),
        ensures
            final(self)@ == old(self)@.prepared(old(uids).peek(), group_uid),
            final(uids).peek() == (if old(uids).peek() == u64::MAX { 0 } else { (old(uids).peek() + 1) as u64 }),
            final(self)@.limit_cpu >= final(self)@.request_cpu,
            final(self)@.limit_memory >= final(self)@.request_memory,
    {
        self.metadata.uid = uids.next_uid();
        self.metadata.group_uid = group_uid;
        self.status.phase = PodPhase::Pending;
        self.status.node_uid = None;
        if self.spec.limit_cpu == 0 {
            self.spec.limit_cpu = u64::MAX;
        }
        if self.spec.limit_memory == 0 {
            self.spec.limit_memory = u64::MAX;
        }
        if self.spec.request_cpu == self.spec.limit_cpu && self.spec.request_memory
            == self.spec.limit_memory {
            self.status.qos_class = QoSClass::Guaranteed;
        } else if self.spec.limit_cpu < u64::MAX && self.spec.limit_memory < u64::MAX {
            self.status.qos_class = QoSClass::Burstable;
        } else {
            self.status.qos_class = QoSClass::BestEffort;
        }
    }
}

} // verus!
