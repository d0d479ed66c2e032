use kubesim::kubelet::eviction_order::EvictionOrder;
use kubesim::kubelet::kubelet::{Kubelet, PodUpdate};
use kubesim::objects::node::Node;
use kubesim::objects::pod::{Pod, PodPhase, QoSClass};

fn node(uid: u64, cpu: u64, memory: u64) -> Node {
    let mut n = Node::default();
    n.metadata.uid = uid;
    n.spec.installed_cpu = cpu;
    n.spec.installed_memory = memory;
    n.spec.available_cpu = cpu;
    n.spec.available_memory = memory;
    n
}

fn pod(uid: u64, qos: QoSClass, priority: i64) -> Pod {
    let mut p = Pod::default();
    p.metadata.uid = uid;
    p.status.qos_class = qos;
    p.spec.priority = priority;
    p.spec.request_cpu = 10;
    p.spec.request_memory = 10;
    p.spec.limit_cpu = u64::MAX;
    p.spec.limit_memory = u64::MAX;
    p
}

fn phases(us: &[PodUpdate]) -> Vec<(u64, PodPhase)> {
    us.iter().map(|u| (u.pod_uid, u.phase)).collect()
}

#[test]
fn pod_that_fits_runs_without_eviction() {
    let mut k = Kubelet::new(&node(7, 100, 100));
    k.turn_on();
    let out = k.add_new_pod(&pod(1, QoSClass::BestEffort, 0), &None, 60, 10);
    assert!(out.started);
    assert_eq!(phases(&out.updates), vec![(1, PodPhase::Running), (1, PodPhase::Running)]);
    assert_eq!(out.updates[0].cpu, 0);
    assert_eq!(out.updates[1].cpu, 60);
    assert!(k.holds(1));
}

#[test]
fn overload_evicts_lowest_class_first() {
    let mut k = Kubelet::new(&node(7, 100, 100));
    k.turn_on();
    k.add_new_pod(&pod(1, QoSClass::BestEffort, 0), &None, 60, 10);
    k.add_new_pod(&pod(3, QoSClass::Burstable, 0), &None, 10, 10);
    let out = k.add_new_pod(&pod(2, QoSClass::Guaranteed, 0), &None, 50, 10);
    assert!(out.started);
    assert_eq!(
        phases(&out.updates),
        vec![(2, PodPhase::Running), (2, PodPhase::Running), (1, PodPhase::Evicted)]
    );
    assert_eq!(out.updates[2].cpu, 60);
    assert!(!k.holds(1));
    assert!(k.holds(2));
    assert!(k.holds(3));
}

#[test]
fn eviction_stops_as_soon_as_the_node_fits() {
    let mut k = Kubelet::new(&node(7, 100, 100));
    k.turn_on();
    k.add_new_pod(&pod(1, QoSClass::BestEffort, 0), &None, 30, 10);
    k.add_new_pod(&pod(4, QoSClass::BestEffort, 5), &None, 30, 10);
    k.add_new_pod(&pod(5, QoSClass::Guaranteed, 0), &None, 30, 10);
    let out = k.add_new_pod(&pod(6, QoSClass::Burstable, 0), &None, 20, 10);
    assert_eq!(
        phases(&out.updates),
        vec![(6, PodPhase::Running), (6, PodPhase::Running), (1, PodPhase::Evicted)]
    );
    assert!(k.holds(4));
}

#[test]
fn usage_over_limits_fails_the_pod() {
    let mut k = Kubelet::new(&node(7, 100, 100));
    k.turn_on();
    let mut p = pod(1, QoSClass::Burstable, 0);
    p.spec.limit_cpu = 20;
    let out = k.add_new_pod(&p, &None, 30, 10);
    assert!(!out.started);
    assert_eq!(phases(&out.updates), vec![(1, PodPhase::Running), (1, PodPhase::Failed)]);
    assert!(!k.holds(1));
}

#[test]
fn preempted_pods_are_reported_first() {
    let mut k = Kubelet::new(&node(7, 100, 100));
    k.turn_on();
    k.add_new_pod(&pod(1, QoSClass::BestEffort, 0), &None, 60, 10);
    let out = k.add_new_pod(&pod(2, QoSClass::Guaranteed, 0), &Some(vec![9, 1]), 60, 10);
    assert_eq!(
        phases(&out.updates),
        vec![(1, PodPhase::Preempted), (2, PodPhase::Running), (2, PodPhase::Running)]
    );
    assert!(!k.holds(1));
}

#[test]
fn load_changes_succeed_fail_or_continue() {
    let mut k = Kubelet::new(&node(7, 100, 100));
    k.turn_on();
    let mut p = pod(1, QoSClass::Burstable, 0);
    p.spec.limit_cpu = 50;
    k.add_new_pod(&p, &None, 10, 10);
    k.add_new_pod(&pod(2, QoSClass::BestEffort, 0), &None, 10, 10);
    let out = k.on_pod_next_change(1, 40, 10, false);
    assert!(out.started);
    assert_eq!(phases(&out.updates), vec![(1, PodPhase::Running)]);
    assert_eq!(out.updates[0].cpu, 40);
    let out = k.on_pod_next_change(1, 60, 10, false);
    assert!(!out.started);
    assert_eq!(phases(&out.updates), vec![(1, PodPhase::Failed)]);
    let out = k.on_pod_next_change(2, 0, 0, true);
    assert_eq!(phases(&out.updates), vec![(2, PodPhase::Succeeded)]);
    assert!(!k.holds(2));
}

#[test]
fn turning_off_sends_every_pod_back_to_pending() {
    let mut k = Kubelet::new(&node(7, 100, 100));
    k.turn_on();
    k.add_new_pod(&pod(1, QoSClass::BestEffort, 0), &None, 10, 10);
    k.add_new_pod(&pod(2, QoSClass::Guaranteed, 0), &None, 10, 10);
    let updates = k.turn_off();
    assert_eq!(phases(&updates), vec![(1, PodPhase::Pending), (2, PodPhase::Pending)]);
    assert!(updates.iter().all(|u| u.cpu == 0 && u.memory == 0));
    assert!(!k.is_turned_on());
    assert!(!k.holds(1));
    k.replace_node(&node(8, 50, 50));
    assert_eq!(k.node_uid(), 8);
}

#[test]
fn removal_restores_and_reports_given_usage() {
    let mut k = Kubelet::new(&node(7, 100, 100));
    k.turn_on();
    k.add_new_pod(&pod(1, QoSClass::BestEffort, 0), &None, 10, 20);
    let u = k.remove_pod_with_restoring_resources(1, PodPhase::Removed, Some(3), None);
    assert_eq!((u.pod_uid, u.phase, u.cpu, u.memory), (1, PodPhase::Removed, 3, 20));
    assert!(!k.holds(1));
}

#[test]
fn eviction_order_is_a_set_of_keys() {
    let mut q = EvictionOrder::new();
    q.add((1, 0, 5));
    q.add((1, 0, 5));
    q.add((0, 9, 9));
    assert_eq!(q.len(), 2);
    assert_eq!(q.first(), Some((0, 9, 9)));
    assert!(q.remove((1, 0, 5)));
    assert!(!q.remove((1, 0, 5)));
    q.clear();
    assert!(q.is_empty());
}
