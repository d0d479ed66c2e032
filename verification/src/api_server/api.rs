use vstd::prelude::*;
use std::collections::HashMap;
use crate::objects::pod::PodPhase;

verus! {

broadcast use vstd::std_specs::hash::group_hash_axioms;

/// Where the API server sends the scheduler's decision on a pod.
#[derive(Debug, Clone, Copy, PartialEq, Eq, Structural)]
pub enum PodRoute {
    /// To the kubelet of the pod's node, by its simulation id.
    ToKubelet(u64),
    /// The node has no kubelet in the routing: the pod goes back to the
    /// scheduler as pending.
    BackToScheduler,
}

/// What the API server forwards of a kubelet's report on a pod.
#[derive(Debug, Clone, Copy, PartialEq, Eq, Structural)]
pub struct KubeletReportRoute {
    /// The scheduler hears of every phase but running.
    pub to_scheduler: bool,
    /// With the HPA on, it gets the report with the pod's group.
    pub to_hpa: Option<u64>,
}

/// The route of a pod decision for a node, given the routing table.
pub open spec fn route_for(kubelets: Map<u64, u64>, node_uid: u64) -> PodRoute {
    if kubelets.contains_key(node_uid) {
        PodRoute::ToKubelet(kubelets[node_uid])
    } else {
        PodRoute::BackToScheduler
    }
}

/// The model of the API server: the simulation ids of the components it
/// talks to, which autoscalers are on, the routing from nodes to kubelets
/// and the group of each pod it has seen.
pub struct APIServerView {
    pub scheduler_sim_id: u64,
    pub ca_sim_id: u64,
    pub hpa_sim_id: u64,
    pub is_ca_enabled: bool,
    pub is_hpa_enabled: bool,
    pub kubelets: Map<u64, u64>,
    pub pod2group: Map<u64, u64>,
}

/// The hub of the cluster: every component talks through it. It routes pod
/// decisions to kubelets and forwards reports to the scheduler and the
/// autoscalers.
pub struct APIServer {
    scheduler_sim_id: u64,
    ca_sim_id: u64,
    hpa_sim_id: u64,
    is_ca_enabled: bool,
    is_hpa_enabled: bool,
    kubelets: HashMap<u64, u64>,
    pod2group: HashMap<u64, u64>,
}

impl View for APIServer {
    type V = APIServerView;

    closed spec fn view(&self) -> APIServerView {
        APIServerView {
            scheduler_sim_id: self.scheduler_sim_id,
            ca_sim_id: self.ca_sim_id,
            hpa_sim_id: self.hpa_sim_id,
            is_ca_enabled: self.is_ca_enabled,
            is_hpa_enabled: self.is_hpa_enabled,
            kubelets: self.kubelets@,
            pod2group: self.pod2group@,
        }
    }
}

impl APIServer {
    /// An API server that knows no component yet: every id is the largest
    /// one, both autoscalers are off, nothing is routed.
    pub fn new() -> (r: Self)
        ensures
            r@ == (APIServerView {
                scheduler_sim_id: u64::MAX,
                ca_sim_id: u64::MAX,
                hpa_sim_id: u64::MAX,
                is_ca_enabled: false,
                is_hpa_enabled: false,
                kubelets: Map::empty(),
                pod2group: Map::empty(),
            }),
    {
        APIServer {
            scheduler_sim_id: u64::MAX,
            ca_sim_id: u64::MAX,
            hpa_sim_id: u64::MAX,
            is_ca_enabled: false,
            is_hpa_enabled: false,
            kubelets: HashMap::new(),
            pod2group: HashMap::new(),
        }
    }

    /// Learns the scheduler's id and, for each autoscaler that runs, its id;
    /// an autoscaler that does not run is off.
    pub fn prepare(&mut self, scheduler_sim_id: u64, ca_sim_id: Option<u64>, hpa_sim_id: Option<u64>)
        ensures
            final(self)@ == (APIServerView {
                scheduler_sim_id: scheduler_sim_id,
                ca_sim_id: match ca_sim_id {
                    Some(id) => id,
                    None => u64::MAX,
                },
                hpa_sim_id: match hpa_sim_id {
                    Some(id) => id,
                    None => u64::MAX,
                },
                is_ca_enabled: ca_sim_id is Some,
                is_hpa_enabled: hpa_sim_id is Some,
                ..old(self)@
            }),
    {
        self.scheduler_sim_id = scheduler_sim_id;
        match hpa_sim_id {
            Some(id) => {
                self.hpa_sim_id = id;
                self.is_hpa_enabled = true;
            },
            None => {
                self.hpa_sim_id = u64::MAX;
                self.is_hpa_enabled = false;
            },
        }
        match ca_sim_id {
            Some(id) => {
                self.ca_sim_id = id;
                self.is_ca_enabled = true;
            },
            None => {
                self.ca_sim_id = u64::MAX;
                self.is_ca_enabled = false;
            },
        }
    }

    pub fn scheduler_sim_id(&self) -> (r: u64)
        ensures
            r == self@.scheduler_sim_id,
    {
        self.scheduler_sim_id
    }

    pub fn ca_sim_id(&self) -> (r: u64)
        ensures
            r == self@.ca_sim_id,
    {
        self.ca_sim_id
    }

    pub fn hpa_sim_id(&self) -> (r: u64)
        ensures
            r == self@.hpa_sim_id,
    {
        self.hpa_sim_id
    }

    pub fn is_hpa_enabled(&self) -> (r: bool)
        ensures
            r == self@.is_hpa_enabled,
    {
        self.is_hpa_enabled
    }

    /// Whether the API server has learnt the group of pod `pod_uid`.
    pub fn knows_pod(&self, pod_uid: u64) -> (r: bool)
        ensures
            r == self@.pod2group.contains_key(pod_uid),
    {
        self.pod2group.contains_key(&pod_uid)
    }

    /// Where the scheduler's decision on a pod placed on `node_uid` goes.
    pub fn route_pod_update(&self, node_uid: u64) -> (r: PodRoute)
        ensures
            r == route_for(self@.kubelets, node_uid),
    {
        match self.kubelets.get(&node_uid) {
            Some(id) => PodRoute::ToKubelet(*id),
            None => PodRoute::BackToScheduler,
        }
    }

    /// Where a kubelet's report on a pod in phase `phase` goes. With the HPA
    /// on, the pod must have been seen.
    pub fn route_kubelet_report(&self, pod_uid: u64, phase: PodPhase) -> (r: KubeletReportRoute)
        requires
            self@.is_hpa_enabled ==> self@.pod2group.contains_key(pod_uid),
        ensures
            r.to_scheduler == (phase != PodPhase::Running),
            r.to_hpa == (if self@.is_hpa_enabled {
                Some(self@.pod2group[pod_uid])
            } else {
                None
            }),
    {
        let to_hpa = if self.is_hpa_enabled {
            Some(*self.pod2group.get(&pod_uid).unwrap())
        } else {
            None
        };
        KubeletReportRoute { to_scheduler: phase != PodPhase::Running, to_hpa }
    }

    /// Takes in a prepared pod: remembers its group, and tells whether the
    /// HPA must hear of it (the HPA is on and the pod has a scaling profile).
    pub fn add_pod(&mut self, pod_uid: u64, group_uid: u64, has_hpa_profile: bool) -> (r: bool)
        requires
            pod_uid != 0,
            group_uid != 0,
        ensures
            final(self)@ == (APIServerView {
                pod2group: old(self)@.pod2group.insert(pod_uid, group_uid),
                ..old(self)@
            }),
            r == (old(self)@.is_hpa_enabled && has_hpa_profile),
    {
        self.pod2group.insert(pod_uid, group_uid);
        self.is_hpa_enabled && has_hpa_profile
    }

    /// Takes in a prepared node: routes its pods to its kubelet from now on.
    pub fn add_node(&mut self, node_uid: u64, group_uid: u64, kubelet_sim_id: u64)
        requires
            node_uid != 0,
            group_uid != 0,
        ensures
            final(self)@ == (APIServerView {
                kubelets: old(self)@.kubelets.insert(node_uid, kubelet_sim_id),
                ..old(self)@
            }),
    {
        self.kubelets.insert(node_uid, kubelet_sim_id);
    }

    /// Stops routing to a node's kubelet, handing back that kubelet's id if
    /// the node was routed: the scheduler and the kubelet are then told.
    pub fn remove_node(&mut self, node_uid: u64) -> (r: Option<u64>)
        ensures
            final(self)@ == (APIServerView { kubelets: old(self)@.kubelets.remove(node_uid), ..old(self)@ }),
            r == (if old(self)@.kubelets.contains_key(node_uid) {
                Some(old(self)@.kubelets[node_uid])
            } else {
                None
            }),
    {
        self.kubelets.remove(&node_uid)
    }
}

/// What reaches the API server, with what it decides on.
#[derive(Debug, Clone, Copy, PartialEq, Eq, Structural)]
pub enum ApiEvent {
    /// The scheduler's decision on a pod placed on a node.
    UpdatePodFromScheduler { pod_uid: u64, node_uid: u64 },
    /// A kubelet's report of a pod's phase.
    PodUpdateFromKubelet { pod_uid: u64, phase: PodPhase },
    /// A request to remove a pod.
    RemovePod { pod_uid: u64 },
    /// A new pod.
    AddPod { pod_uid: u64, group_uid: u64, has_hpa_profile: bool },
    /// A new node, with the simulation id of its kubelet.
    AddNode { node_uid: u64, group_uid: u64, kubelet_sim_id: u64 },
    /// A request to remove a node.
    RemoveNode { node_uid: u64 },
    /// A kubelet's acknowledgement that its node left.
    RemoveNodeAck { node_uid: u64 },
    /// The cluster autoscaler asks for the scheduler's metrics.
    GetCAMetrics,
    /// The scheduler's metrics for the cluster autoscaler.
    PostCAMetrics,
}

/// The network link a message travels, which fixes its delay.
#[derive(Debug, Clone, Copy, PartialEq, Eq, Structural)]
pub enum Link {
    ToScheduler,
    ToKubelet,
    ToHpa,
    ToCa,
}

/// What the API server sends.
#[derive(Debug, Clone, Copy, PartialEq, Eq, Structural)]
pub enum ApiMessage {
    /// The event it got, as it got it.
    Forward,
    /// The pod goes back to the scheduler as pending.
    PodPending { pod_uid: u64 },
    /// A kubelet's report of a pod's phase, for the scheduler.
    PodPhaseReport { pod_uid: u64, phase: PodPhase },
    /// A kubelet's report with the pod's group, for the HPA.
    PodMetrics { pod_uid: u64, group_uid: u64 },
}

/// One message, its receiver's simulation id and its link.
#[derive(Debug, Clone, Copy, PartialEq, Eq, Structural)]
pub struct ApiSend {
    pub to: u64,
    pub link: Link,
    pub message: ApiMessage,
}

/// The events the API server can take in state `v`: a report on a pod
/// whose group it never saw, with the HPA on, or a pod or node that was
/// not prepared (a zero uid), is a fault of the sender.
pub open spec fn api_accepts(v: APIServerView, e: ApiEvent) -> bool {
    match e {
        ApiEvent::PodUpdateFromKubelet { pod_uid, .. } => v.is_hpa_enabled ==> v.pod2group.contains_key(pod_uid),
        ApiEvent::AddPod { pod_uid, group_uid, .. } => pod_uid != 0 && group_uid != 0,
        ApiEvent::AddNode { node_uid, group_uid, .. } => node_uid != 0 && group_uid != 0,
        _ => true,
    }
}

/// The state after event `e`: pods and nodes are learnt, removed nodes
/// leave the routing, nothing else changes.
pub open spec fn api_next(v: APIServerView, e: ApiEvent) -> APIServerView {
    match e {
        ApiEvent::AddPod { pod_uid, group_uid, .. } => APIServerView {
            pod2group: v.pod2group.insert(pod_uid, group_uid),
            ..v
        },
        ApiEvent::AddNode { node_uid, kubelet_sim_id, .. } => APIServerView {
            kubelets: v.kubelets.insert(node_uid, kubelet_sim_id),
            ..v
        },
        ApiEvent::RemoveNode { node_uid } => APIServerView { kubelets: v.kubelets.remove(node_uid), ..v },
        _ => v,
    }
}

pub open spec fn send_to_scheduler(v: APIServerView, m: ApiMessage) -> ApiSend {
    ApiSend { to: v.scheduler_sim_id, link: Link::ToScheduler, message: m }
}

pub open spec fn send_to_hpa(v: APIServerView, m: ApiMessage) -> ApiSend {
    ApiSend { to: v.hpa_sim_id, link: Link::ToHpa, message: m }
}

pub open spec fn send_to_ca(v: APIServerView) -> ApiSend {
    ApiSend { to: v.ca_sim_id, link: Link::ToCa, message: ApiMessage::Forward }
}

/// The messages the API server sends on event `e` in state `v`, in order.
pub open spec fn api_sends(v: APIServerView, e: ApiEvent) -> Seq<ApiSend> {
    match e {
        ApiEvent::UpdatePodFromScheduler { pod_uid, node_uid } => match route_for(v.kubelets, node_uid) {
            PodRoute::ToKubelet(k) => seq![ApiSend { to: k, link: Link::ToKubelet, message: ApiMessage::Forward }],
            PodRoute::BackToScheduler => seq![send_to_scheduler(v, ApiMessage::PodPending { pod_uid })],
        },
        ApiEvent::PodUpdateFromKubelet { pod_uid, phase } => {
            let to_scheduler = if phase != PodPhase::Running {
                seq![send_to_scheduler(v, ApiMessage::PodPhaseReport { pod_uid, phase })]
            } else {
                Seq::empty()
            };
            let to_hpa = if v.is_hpa_enabled {
                seq![send_to_hpa(v, ApiMessage::PodMetrics { pod_uid, group_uid: v.pod2group[pod_uid] })]
            } else {
                Seq::empty()
            };
            to_scheduler + to_hpa
        },
        ApiEvent::AddPod { has_hpa_profile, .. } => {
            let to_hpa = if v.is_hpa_enabled && has_hpa_profile {
                seq![send_to_hpa(v, ApiMessage::Forward)]
            } else {
                Seq::empty()
            };
            to_hpa.push(send_to_scheduler(v, ApiMessage::Forward))
        },
        ApiEvent::RemoveNode { node_uid } => if v.kubelets.contains_key(node_uid) {
            seq![
                send_to_scheduler(v, ApiMessage::Forward),
                ApiSend { to: v.kubelets[node_uid], link: Link::ToKubelet, message: ApiMessage::Forward },
            ]
        } else {
            Seq::empty()
        },
        ApiEvent::RemoveNodeAck { .. } => seq![send_to_ca(v)],
        ApiEvent::PostCAMetrics => seq![send_to_ca(v)],
        _ => seq![send_to_scheduler(v, ApiMessage::Forward)],
    }
}

impl APIServer {
    fn scheduler_send(&self, message: ApiMessage) -> (r: ApiSend)
        ensures
            r == send_to_scheduler(self@, message),
    {
        ApiSend { to: self.scheduler_sim_id, link: Link::ToScheduler, message }
    }

    fn hpa_send(&self, message: ApiMessage) -> (r: ApiSend)
        ensures
            r == send_to_hpa(self@, message),
    {
        ApiSend { to: self.hpa_sim_id, link: Link::ToHpa, message }
    }

    fn ca_send(&self) -> (r: ApiSend)
        ensures
            r == send_to_ca(self@),
    {
        ApiSend { to: self.ca_sim_id, link: Link::ToCa, message: ApiMessage::Forward }
    }

    /// Handles one event: updates the routing and the pod groups, and says
    /// whom to tell what.
    pub fn on(&mut self, event: ApiEvent) -> (sends: Vec<ApiSend>)
        requires
            api_accepts(old(self)@, event),
        ensures
            final(self)@ == api_next(old(self)@, event),
            sends@ == api_sends(old(self)@, event),
    {
        let mut sends: Vec<ApiSend> = Vec::new();
        match event {
            ApiEvent::UpdatePodFromScheduler { pod_uid, node_uid } => {
                match self.route_pod_update(node_uid) {
                    PodRoute::ToKubelet(k) => {
                        sends.push(ApiSend { to: k, link: Link::ToKubelet, message: ApiMessage::Forward });
                    },
                    PodRoute::BackToScheduler => {
                        sends.push(self.scheduler_send(ApiMessage::PodPending { pod_uid }));
                    },
                }
            },
            ApiEvent::PodUpdateFromKubelet { pod_uid, phase } => {
                let route = self.route_kubelet_report(pod_uid, phase);
                if route.to_scheduler {
                    sends.push(self.scheduler_send(ApiMessage::PodPhaseReport { pod_uid, phase }));
                }
                match route.to_hpa {
                    Some(group_uid) => {
                        sends.push(self.hpa_send(ApiMessage::PodMetrics { pod_uid, group_uid }));
                    },
                    None => {},
                }
            },
            ApiEvent::AddPod { pod_uid, group_uid, has_hpa_profile } => {
                let to_hpa = self.add_pod(pod_uid, group_uid, has_hpa_profile);
                if to_hpa {
                    sends.push(self.hpa_send(ApiMessage::Forward));
                }
                sends.push(self.scheduler_send(ApiMessage::Forward));
            },
            ApiEvent::AddNode { node_uid, group_uid, kubelet_sim_id } => {
                self.add_node(node_uid, group_uid, kubelet_sim_id);
                sends.push(self.scheduler_send(ApiMessage::Forward));
            },
            ApiEvent::RemoveNode { node_uid } => {
                match self.remove_node(node_uid) {
                    Some(kubelet_sim_id) => {
                        sends.push(self.scheduler_send(ApiMessage::Forward));
                        sends.push(ApiSend { to: kubelet_sim_id, link: Link::ToKubelet, message: ApiMessage::Forward });
                    },
                    None => {},
                }
            },
            ApiEvent::RemoveNodeAck { .. } => {
                sends.push(self.ca_send());
            },
            ApiEvent::PostCAMetrics => {
                sends.push(self.ca_send());
            },
            ApiEvent::RemovePod { .. } => {
                sends.push(self.scheduler_send(ApiMessage::Forward));
            },
            ApiEvent::GetCAMetrics => {
                sends.push(self.scheduler_send(ApiMessage::Forward));
            },
        }
        sends
    }
}

/// Once a node is removed, decisions on pods placed there go back to the
/// scheduler, whatever was routed before.
pub proof fn lemma_removed_node_not_routed(kubelets: Map<u64, u64>, node_uid: u64)
    ensures
        route_for(kubelets.remove(node_uid), node_uid) == PodRoute::BackToScheduler,
{
}

/// Once a node is added, decisions on pods placed there go to the kubelet
/// it was added with; routes of other nodes do not change.
pub proof fn lemma_added_node_routed(kubelets: Map<u64, u64>, node_uid: u64, kubelet_sim_id: u64, other: u64)
    requires
        other != node_uid,
    ensures
        route_for(kubelets.insert(node_uid, kubelet_sim_id), node_uid) == PodRoute::ToKubelet(kubelet_sim_id),
        route_for(kubelets.insert(node_uid, kubelet_sim_id), other) == route_for(kubelets, other),
        route_for(kubelets.remove(node_uid), other) == route_for(kubelets, other),
{
}

/// After a node is removed, the scheduler's decision on a pod placed on it
/// comes back to the scheduler, the pod pending again.
pub proof fn lemma_decision_after_node_removed(v: APIServerView, node_uid: u64, pod_uid: u64)
    ensures
        ({
            let after = api_next(v, ApiEvent::RemoveNode { node_uid });
            api_sends(after, ApiEvent::UpdatePodFromScheduler { pod_uid, node_uid })
                == seq![send_to_scheduler(v, ApiMessage::PodPending { pod_uid })]
        }),
{
    let after = api_next(v, ApiEvent::RemoveNode { node_uid });
    assert(!after.kubelets.contains_key(node_uid));
}

/// After a node is added, the scheduler's decision on a pod placed on it
/// goes to the kubelet the node came with, and to nobody else.
pub proof fn lemma_decision_after_node_added(v: APIServerView, node_uid: u64, group_uid: u64, kubelet_sim_id: u64, pod_uid: u64)
    ensures
        ({
            let after = api_next(v, ApiEvent::AddNode { node_uid, group_uid, kubelet_sim_id });
            api_sends(after, ApiEvent::UpdatePodFromScheduler { pod_uid, node_uid })
                == seq![ApiSend { to: kubelet_sim_id, link: Link::ToKubelet, message: ApiMessage::Forward }]
        }),
{
}

/// Whatever the event, a pod the API server has learnt the group of keeps
/// that group, and only an added pod changes the groups.
pub proof fn lemma_groups_kept(v: APIServerView, e: ApiEvent, pod_uid: u64)
    requires
        v.pod2group.contains_key(pod_uid),
        !(e matches ApiEvent::AddPod { pod_uid: p, .. } && p == pod_uid),
    ensures
        api_next(v, e).pod2group.contains_key(pod_uid),
        api_next(v, e).pod2group[pod_uid] == v.pod2group[pod_uid],
{
}

/// A kubelet's report of any phase but running reaches the scheduler first,
/// as a report of that pod and phase; a report of running does not reach
/// it. With the HPA on, the report then goes to the HPA with the pod's
/// group; with it off, nothing else is sent. The state does not change.
pub proof fn lemma_kubelet_report_reaches_scheduler(v: APIServerView, pod_uid: u64, phase: PodPhase)
    ensures
        ({
            let e = ApiEvent::PodUpdateFromKubelet { pod_uid, phase };
            let s = api_sends(v, e);
            &&& phase != PodPhase::Running ==> s.len() >= 1 && s[0] == ApiSend {
                to: v.scheduler_sim_id,
                link: Link::ToScheduler,
                message: ApiMessage::PodPhaseReport { pod_uid, phase },
            }
            &&& phase == PodPhase::Running ==> forall|i: int| 0 <= i < s.len() ==> (#[trigger] s[i]).link != Link::ToScheduler
            &&& v.is_hpa_enabled ==> s.len() >= 1 && s[s.len() - 1] == ApiSend {
                to: v.hpa_sim_id,
                link: Link::ToHpa,
                message: ApiMessage::PodMetrics { pod_uid, group_uid: v.pod2group[pod_uid] },
            }
            &&& s.len() == (if phase != PodPhase::Running { 1int } else { 0int }) + (if v.is_hpa_enabled { 1int } else { 0int })
            &&& api_next(v, e) == v
        }),
{
    let e = ApiEvent::PodUpdateFromKubelet { pod_uid, phase };
    let s = api_sends(v, e);
    if phase == PodPhase::Running {
        assert forall|i: int| 0 <= i < s.len() implies (#[trigger] s[i]).link != Link::ToScheduler by {
            if v.is_hpa_enabled {
                assert(s[i] == send_to_hpa(v, ApiMessage::PodMetrics { pod_uid, group_uid: v.pod2group[pod_uid] }));
            }
        }
    }
}

} // verus!
