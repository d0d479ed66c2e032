use kubesim::test::Test;

#[test]
fn test_backoff_queue_constant() {
    assert!(Test::test_backoff_queue_constant());
}

#[test]
fn test_backoff_queue_exponential() {
    assert!(Test::test_backoff_queue_exponential());
}

#[test]
fn test_pod_qos_class() {
    assert!(Test::test_pod_qos_class());
}

#[test]
fn test_active_queue_cmp_priority() {
    assert!(Test::test_active_queue_cmp_priority());
}

#[test]
fn test_active_queue_cmp_uid() {
    assert!(Test::test_active_queue_cmp_uid());
}

#[test]
fn test_node_rtree() {
    assert!(Test::test_node_rtree());
}

#[test]
fn test_all() {
    assert!(Test::test_all());
}
