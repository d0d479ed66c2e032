use kubesim::api_server::api::{APIServer, ApiEvent, ApiMessage, ApiSend, Link, PodRoute};
use kubesim::objects::pod::PodPhase;

#[test]
fn routes_follow_added_and_removed_nodes() {
    let mut api = APIServer::new();
    api.prepare(1, None, Some(3));
    assert_eq!(api.route_pod_update(10), PodRoute::BackToScheduler);
    api.add_node(10, 5, 42);
    assert_eq!(api.route_pod_update(10), PodRoute::ToKubelet(42));
    assert_eq!(api.remove_node(10), Some(42));
    assert_eq!(api.remove_node(10), None);
    assert_eq!(api.route_pod_update(10), PodRoute::BackToScheduler);
}

#[test]
fn kubelet_reports_reach_scheduler_and_hpa() {
    let mut api = APIServer::new();
    api.prepare(1, Some(2), Some(3));
    assert_eq!((api.scheduler_sim_id(), api.ca_sim_id(), api.hpa_sim_id()), (1, 2, 3));
    assert!(api.add_pod(7, 4, true));
    let r = api.route_kubelet_report(7, PodPhase::Running);
    assert!(!r.to_scheduler);
    assert_eq!(r.to_hpa, Some(4));
    let r = api.route_kubelet_report(7, PodPhase::Succeeded);
    assert!(r.to_scheduler);
}

#[test]
fn without_hpa_nothing_goes_there() {
    let mut api = APIServer::new();
    api.prepare(1, None, None);
    assert_eq!(api.hpa_sim_id(), u64::MAX);
    assert!(!api.add_pod(7, 4, true));
    let r = api.route_kubelet_report(8, PodPhase::Failed);
    assert!(r.to_scheduler);
    assert_eq!(r.to_hpa, None);
}

fn send(to: u64, link: Link, message: ApiMessage) -> ApiSend {
    ApiSend { to, link, message }
}

#[test]
fn decision_on_removed_node_comes_back_pending() {
    let mut api = APIServer::new();
    api.prepare(1, Some(2), Some(3));
    assert_eq!(
        api.on(ApiEvent::AddNode { node_uid: 10, group_uid: 5, kubelet_sim_id: 42 }),
        vec![send(1, Link::ToScheduler, ApiMessage::Forward)]
    );
    assert_eq!(
        api.on(ApiEvent::UpdatePodFromScheduler { pod_uid: 7, node_uid: 10 }),
        vec![send(42, Link::ToKubelet, ApiMessage::Forward)]
    );
    assert_eq!(
        api.on(ApiEvent::RemoveNode { node_uid: 10 }),
        vec![send(1, Link::ToScheduler, ApiMessage::Forward), send(42, Link::ToKubelet, ApiMessage::Forward)]
    );
    assert_eq!(api.on(ApiEvent::RemoveNode { node_uid: 10 }), vec![]);
    assert_eq!(
        api.on(ApiEvent::UpdatePodFromScheduler { pod_uid: 7, node_uid: 10 }),
        vec![send(1, Link::ToScheduler, ApiMessage::PodPending { pod_uid: 7 })]
    );
}

#[test]
fn pods_and_reports_reach_their_receivers() {
    let mut api = APIServer::new();
    api.prepare(1, Some(2), Some(3));
    assert_eq!(
        api.on(ApiEvent::AddPod { pod_uid: 7, group_uid: 4, has_hpa_profile: true }),
        vec![send(3, Link::ToHpa, ApiMessage::Forward), send(1, Link::ToScheduler, ApiMessage::Forward)]
    );
    assert_eq!(
        api.on(ApiEvent::AddPod { pod_uid: 8, group_uid: 4, has_hpa_profile: false }),
        vec![send(1, Link::ToScheduler, ApiMessage::Forward)]
    );
    assert!(api.knows_pod(8));
    assert_eq!(
        api.on(ApiEvent::PodUpdateFromKubelet { pod_uid: 7, phase: PodPhase::Running }),
        vec![send(3, Link::ToHpa, ApiMessage::PodMetrics { pod_uid: 7, group_uid: 4 })]
    );
    assert_eq!(
        api.on(ApiEvent::PodUpdateFromKubelet { pod_uid: 7, phase: PodPhase::Evicted }),
        vec![
            send(1, Link::ToScheduler, ApiMessage::PodPhaseReport { pod_uid: 7, phase: PodPhase::Evicted }),
            send(3, Link::ToHpa, ApiMessage::PodMetrics { pod_uid: 7, group_uid: 4 }),
        ]
    );
    assert_eq!(api.on(ApiEvent::RemovePod { pod_uid: 7 }), vec![send(1, Link::ToScheduler, ApiMessage::Forward)]);
}

#[test]
fn cluster_autoscaler_traffic() {
    let mut api = APIServer::new();
    api.prepare(1, Some(2), None);
    assert!(!api.is_hpa_enabled());
    assert_eq!(api.on(ApiEvent::GetCAMetrics), vec![send(1, Link::ToScheduler, ApiMessage::Forward)]);
    assert_eq!(api.on(ApiEvent::PostCAMetrics), vec![send(2, Link::ToCa, ApiMessage::Forward)]);
    assert_eq!(api.on(ApiEvent::RemoveNodeAck { node_uid: 10 }), vec![send(2, Link::ToCa, ApiMessage::Forward)]);
    assert_eq!(
        api.on(ApiEvent::PodUpdateFromKubelet { pod_uid: 9, phase: PodPhase::Succeeded }),
        vec![send(1, Link::ToScheduler, ApiMessage::PodPhaseReport { pod_uid: 9, phase: PodPhase::Succeeded })]
    );
}
