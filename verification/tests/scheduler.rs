use kubesim::scheduler::node_index::{NodeRTree, INDEX_LIMIT};
use kubesim::objects::node::Node;
use kubesim::objects::pod::{Pod, PodPhase};
use kubesim::scheduler::active_queue::ActiveQCmpPriority;
use kubesim::scheduler::backoff_queue::BackOffQConstant;
use kubesim::scheduler::scheduler::{
    select_best_node, weighted_totals, CycleBudget, FilterPlugin, ScheduleStep, Scheduler,
};

fn node(uid: u64, cpu: u64, memory: u64) -> Node {
    let mut n = Node::default();
    n.metadata.uid = uid;
    n.spec.installed_cpu = cpu;
    n.spec.installed_memory = memory;
    n.spec.available_cpu = cpu;
    n.spec.available_memory = memory;
    n
}

fn pod(uid: u64, cpu: u64, memory: u64) -> Pod {
    let mut p = Pod::default();
    p.metadata.uid = uid;
    p.spec.request_cpu = cpu;
    p.spec.request_memory = memory;
    p
}

#[test]
fn weighted_totals_sum_weighted_scores() {
    let t = weighted_totals(&vec![vec![1, 2], vec![3, 4]], &vec![10, 1], 2).unwrap();
    assert_eq!(t, vec![13, 24]);
    assert_eq!(weighted_totals(&vec![vec![i64::MAX]], &vec![2], 1), None);
    assert_eq!(weighted_totals(&vec![vec![i64::MAX], vec![1]], &vec![1, 1], 1), None);
    assert_eq!(select_best_node(&vec![3, 7, 7, 1]), 1);
}

#[test]
fn zero_cycle_limits_mean_no_limit() {
    let b = CycleBudget::from_limits(0, 5);
    assert_eq!((b.scheduled_left, b.try_left), (u64::MAX, 5));
}

#[test]
fn a_pod_is_placed_on_a_node_that_fits() {
    let mut s: Scheduler<ActiveQCmpPriority, BackOffQConstant> =
        Scheduler::new(BackOffQConstant::new(1000), vec![FilterPlugin::RequestedResourcesAvailable]);
    s.add_node(node(1, 100, 100));
    s.add_node(node(2, 5, 5));
    assert!(s.is_known_node(1));
    s.process_new_pod(pod(5, 10, 10));
    assert!(s.is_pending(5));
    s.begin_cycle(0);
    let mut budget = CycleBudget::from_limits(0, 0);
    match s.next_step(0, &mut budget) {
        ScheduleStep::Candidates { pod, nodes } => {
            assert_eq!(pod.metadata.uid, 5);
            assert_eq!(nodes.len(), 1);
            assert_eq!(nodes[0].metadata.uid, 1);
        }
        _ => panic!("expected candidates"),
    }
    let placed = s.place(&vec![0], &mut budget);
    assert_eq!(placed.node_uid, 1);
    assert_eq!((placed.cpu, placed.memory), (10, 10));
    assert_eq!(placed.pod.status.phase, PodPhase::Running);
    assert!(s.is_running(5));
    assert_eq!(s.running_count(), 1);
    let m = s.ca_metrics(&vec![1, 3]);
    assert_eq!(m.insufficient_pending, 0);
    assert_eq!(m.node_usage, vec![(1, 10, 100, 10, 100)]);
    match s.next_step(0, &mut budget) {
        ScheduleStep::Finished => {}
        _ => panic!("expected the cycle to end"),
    }
}

#[test]
fn a_pod_with_no_node_is_starved_and_reported() {
    let mut s: Scheduler<ActiveQCmpPriority, BackOffQConstant> =
        Scheduler::new(BackOffQConstant::new(1000), vec![FilterPlugin::RequestedResourcesAvailable]);
    s.add_node(node(1, 5, 5));
    s.process_new_pod(pod(5, 10, 20));
    s.begin_cycle(0);
    let mut budget = CycleBudget::from_limits(0, 0);
    match s.next_step(0, &mut budget) {
        ScheduleStep::Unschedulable { pod_uid, second_chance } => {
            assert_eq!(pod_uid, 5);
            assert!(second_chance);
        }
        _ => panic!("expected the pod to be unschedulable"),
    }
    let m = s.ca_metrics(&vec![]);
    assert_eq!(m.insufficient_pending, 1);
    assert_eq!(m.requests, vec![(10, 20)]);
}

fn scheduler_with_running_pod() -> Scheduler<ActiveQCmpPriority, BackOffQConstant> {
    let mut s: Scheduler<ActiveQCmpPriority, BackOffQConstant> =
        Scheduler::new(BackOffQConstant::new(1000), vec![FilterPlugin::RequestedResourcesAvailable]);
    s.add_node(node(1, 100, 100));
    s.process_new_pod(pod(5, 10, 20));
    s.begin_cycle(0);
    let mut budget = CycleBudget::from_limits(0, 0);
    match s.next_step(0, &mut budget) {
        ScheduleStep::Candidates { .. } => {}
        _ => panic!("expected candidates"),
    }
    s.place(&vec![0], &mut budget);
    s
}

#[test]
fn an_evicted_pod_is_pending_again() {
    let mut s = scheduler_with_running_pod();
    assert_eq!(s.process_pod_update(5, PodPhase::Evicted), Some((10, 20)));
    assert!(!s.is_running(5));
    assert!(s.is_pending(5));
    assert_eq!((s.running_count(), s.pending_count()), (0, 1));
}

#[test]
fn a_succeeded_pod_is_done() {
    let mut s = scheduler_with_running_pod();
    assert_eq!(s.process_pod_update(5, PodPhase::Succeeded), Some((10, 20)));
    assert!(!s.is_running(5));
    assert!(!s.is_pending(5));
    assert_eq!((s.running_count(), s.pending_count()), (0, 0));
}

#[test]
fn a_pod_removed_while_running_does_not_come_back() {
    let mut s = scheduler_with_running_pod();
    let p = s.remove_pod(5).unwrap();
    assert_eq!(p.node_uid, 1);
    assert_eq!(p.new_phase, PodPhase::Pending);
    assert_eq!(p.pod.metadata.uid, 5);
    assert_eq!(s.process_pod_update(5, PodPhase::Preempted), Some((10, 20)));
    assert!(!s.is_running(5) && !s.is_pending(5));
}

#[test]
fn node_index_handles_byte_sized_memory() {
    let mut index = NodeRTree::new();
    for i in 1..=60u64 {
        let mut n = node(i, 1000 * i, (1u64 << 40) + i * (1u64 << 35));
        n.metadata.uid = i;
        index.insert(n);
    }
    let mut big = node(100, INDEX_LIMIT - 1, INDEX_LIMIT - 1);
    big.metadata.uid = u64::MAX;
    index.insert(big);
    let mut result = Vec::new();
    index.find_suitable_nodes(30_000, (1u64 << 40) + 40 * (1u64 << 35), &mut result);
    let mut uids: Vec<u64> = result.iter().map(|n| n.metadata.uid).collect();
    uids.sort();
    let mut expected: Vec<u64> = (40..=60).collect();
    expected.push(u64::MAX);
    assert_eq!(uids, expected);
    assert_eq!(index.remove(u64::MAX).map(|n| n.metadata.uid), Some(u64::MAX));
    index.find_suitable_nodes(0, 0, &mut result);
    assert_eq!(result.len(), 60);
}

#[test]
fn cycle_limits_read_twice_are_read_once() {
    for (s, t) in [(0u64, 0u64), (3, 0), (0, 7), (u64::MAX, 5)] {
        let b = CycleBudget::from_limits(s, t);
        let c = CycleBudget::from_limits(b.scheduled_left, b.try_left);
        assert_eq!((c.scheduled_left, c.try_left), (b.scheduled_left, b.try_left));
    }
}
