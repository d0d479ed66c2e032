use kubesim::objects::node::Node;
use kubesim::simulation::monitoring::Monitoring;

#[test]
fn counters_follow_consumption_and_finished_pods() {
    let mut m = Monitoring::new();
    assert!(!m.presimulation_check());
    assert!(m.presimulation_init());
    assert!(!m.presimulation_init());
    let mut n = Node::default();
    n.spec.installed_cpu = 100;
    n.spec.available_cpu = 100;
    n.spec.installed_memory = 50;
    n.spec.available_memory = 50;
    m.scheduler_on_node_added(&n);
    m.scheduler_on_node_consume(10, 5);
    m.kubelet_on_pod_placed(7, 3);
    m.scheduler_on_node_restore(10, 5);
    m.kubelet_on_pod_unplaced(2, 1);
    m.scheduler_update_pending_pod_count(4);
    m.set_n_pod_in_simulation(2);
    assert!(!m.kubelet_on_pod_finished());
    assert!(m.self_update_enabled());
    assert!(m.kubelet_on_pod_finished());
    assert!(!m.self_update_enabled());
    assert_eq!(m.statistics(), (5, 0, 100, 2, 0, 50, 2, 2, 4));
}
