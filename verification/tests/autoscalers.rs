use kubesim::autoscaler::vpa::{vpa_decide, VpaAction, VpaPod};
use kubesim::autoscaler::ca::CA;
use kubesim::autoscaler::hpa::{HPADecision, HPAGroupInfo, HPA};
use kubesim::objects::node::Node;
use kubesim::objects::node_group::NodeGroup;
use kubesim::objects::pod::PodPhase;
use kubesim::objects::uid::UidCounter;

fn group(group_uid: u64, amount: u64, cpu: u64, memory: u64) -> NodeGroup {
    let mut node = Node::default();
    node.spec.installed_cpu = cpu;
    node.spec.installed_memory = memory;
    node.metadata.group_uid = group_uid;
    NodeGroup { group_uid, amount, node }
}

#[test]
fn ca_adds_a_node_of_the_first_group_that_fits() {
    let mut uids = UidCounter::new();
    let groups = vec![group(20, 1, 100, 100), group(10, 2, 10, 10)];
    let mut ca = CA::new(groups, vec![501, 502, 503], 1, 2, &mut uids);
    // Templates were readied with uids 1 and 2.
    assert!(ca.turn_on());
    assert!(!ca.turn_on());
    let out = ca.process_metrics(0, &vec![(50, 50)], &vec![], &mut uids);
    assert!(out.added.is_none());
    assert!(out.remove_nodes.is_empty());
    let out = ca.process_metrics(1, &vec![(50, 50)], &vec![], &mut uids);
    let added = out.added.unwrap();
    assert_eq!(added.group_uid, 20);
    assert_eq!(added.kubelet_sim_id, 503);
    assert_eq!(added.node.metadata.uid, 3);
    assert_eq!(added.node.spec.available_cpu, 100);
    assert_eq!(ca.self_update(), vec![3]);
    // The group of 100/100 is used up: the small group cannot take the request.
    let out = ca.process_metrics(1, &vec![(50, 50)], &vec![], &mut uids);
    assert!(out.added.is_none());
    let out = ca.process_metrics(1, &vec![(50, 50), (5, 5)], &vec![], &mut uids);
    assert_eq!(out.added.unwrap().group_uid, 10);
}

#[test]
fn ca_asks_to_remove_nodes_low_for_long_enough() {
    let mut uids = UidCounter::new();
    let mut ca = CA::new(vec![group(10, 1, 100, 100)], vec![7], 1, 2, &mut uids);
    let added = ca.process_metrics(1, &vec![(1, 1)], &vec![], &mut uids).added.unwrap();
    let uid = added.node.metadata.uid;
    let out = ca.process_metrics(0, &vec![], &vec![(uid, true), (999, true)], &mut uids);
    assert!(out.remove_nodes.is_empty());
    let out = ca.process_metrics(0, &vec![], &vec![(uid, false)], &mut uids);
    assert!(out.remove_nodes.is_empty());
    let out = ca.process_metrics(0, &vec![], &vec![(uid, true)], &mut uids);
    assert_eq!(out.remove_nodes, vec![uid]);
    ca.commit_node_remove(uid);
    assert!(ca.self_update().is_empty());
    // The node and its kubelet are free again.
    let again = ca.process_metrics(1, &vec![(1, 1)], &vec![], &mut uids).added.unwrap();
    assert_eq!(again.kubelet_sim_id, 7);
    assert!(ca.turn_off() == false);
}

#[test]
fn hpa_group_tracks_running_and_alive_pods() {
    let mut g = HPAGroupInfo::new();
    g.update_with_new_pod(5);
    g.update_with_new_pod(3);
    assert_eq!(g.group_size(), 2);
    let c = g.update_with_pod_metrics(5, PodPhase::Running);
    assert!(!c.subtract_last && c.add_new);
    let c = g.update_with_pod_metrics(5, PodPhase::Running);
    assert!(c.subtract_last && c.add_new);
    let c = g.update_with_pod_metrics(5, PodPhase::Succeeded);
    assert!(c.subtract_last && !c.add_new);
    assert_eq!(g.group_size(), 1);
    assert_eq!(g.decide(0, 0, false, false), HPADecision::RemovePod(3));
}

#[test]
fn hpa_decision_ladder() {
    let mut g = HPAGroupInfo::new();
    g.update_with_new_pod(1);
    g.update_with_new_pod(2);
    assert_eq!(g.decide(3, 5, false, false), HPADecision::AddPod);
    assert_eq!(g.decide(1, 1, false, false), HPADecision::RemovePod(2));
    assert_eq!(g.decide(1, 5, true, true), HPADecision::RemovePod(2));
    assert_eq!(g.decide(2, 5, true, true), HPADecision::AddPod);
    assert_eq!(g.decide(2, 2, false, true), HPADecision::Keep);
}

#[test]
fn hpa_scales_only_groups_with_a_profile() {
    let mut h = HPA::new();
    assert!(h.turn_on());
    assert!(!h.on_add_pod(4, 1, false));
    assert!(!h.manages(4));
    assert!(h.on_add_pod(9, 2, true));
    assert!(h.on_add_pod(4, 3, true));
    assert_eq!(h.group_count(), 2);
    assert_eq!(h.group_uid_at(0), 4);
    assert_eq!(h.group_uid_at(1), 9);
    assert_eq!(h.on_pod_metrics(7, 1, PodPhase::Running), None);
    let c = h.on_pod_metrics(9, 2, PodPhase::Running).unwrap();
    assert!(c.add_new);
    assert_eq!(h.group_size_at(1), 1);
    assert_eq!(h.decide_at(1, 2, 3, false, false), HPADecision::AddPod);
    assert!(h.turn_off());
}

fn vpa_pod(pod_uid: u64, finished: bool, failed: bool, rescheduled: bool, need_reschedule: bool) -> VpaPod {
    VpaPod { pod_uid, finished, failed, rescheduled, need_reschedule }
}

#[test]
fn vpa_replaces_failed_pods_then_reschedules_drifted_ones() {
    let pods = vec![
        vpa_pod(1, true, true, false, false),
        vpa_pod(2, false, false, false, true),
        vpa_pod(3, true, false, false, true),
        vpa_pod(4, false, false, true, true),
        vpa_pod(5, false, false, false, false),
        vpa_pod(6, true, true, true, false),
    ];
    let d = vpa_decide(&pods);
    assert_eq!(
        d.actions,
        vec![VpaAction::AddLike(1), VpaAction::AddLike(6), VpaAction::Remove(2), VpaAction::AddLike(2)]
    );
    assert_eq!(
        d.kept,
        vec![vpa_pod(2, false, false, true, true), vpa_pod(4, false, false, true, true), vpa_pod(5, false, false, false, false)]
    );
}

#[test]
fn vpa_reschedules_a_pod_at_most_once() {
    let first = vpa_decide(&vec![vpa_pod(2, false, false, false, true)]);
    assert_eq!(first.actions, vec![VpaAction::Remove(2), VpaAction::AddLike(2)]);
    let second = vpa_decide(&first.kept);
    assert!(second.actions.is_empty());
    assert_eq!(second.kept, first.kept);
    assert!(vpa_decide(&vec![]).actions.is_empty());
}
