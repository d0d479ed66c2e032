use vstd::prelude::*;
use crate::objects::node::Node;

verus! {

/// The model of the monitoring counters.
pub struct MonitoringView {
    pub self_update_enabled: bool,
    pub total_installed_cpu: u64,
    pub total_installed_memory: u64,
    pub scheduler_used_cpu: u64,
    pub scheduler_used_memory: u64,
    pub kubelets_used_cpu: u64,
    pub kubelets_used_memory: u64,
    pub n_pod_in_simulation: u64,
    pub pending_pod_counter: usize,
    pub finished_pod_counter: u64,
}

/// The cluster-wide counters the simulation reports: resources installed,
/// resources the scheduler has handed out and the kubelets use, pods
/// pending and finished.
pub struct Monitoring {
    self_update_enabled: bool,
    total_installed_cpu: u64,
    total_installed_memory: u64,
    scheduler_used_cpu: u64,
    scheduler_used_memory: u64,
    kubelets_used_cpu: u64,
    kubelets_used_memory: u64,
    n_pod_in_simulation: u64,
    pending_pod_counter: usize,
    finished_pod_counter: u64,
}

impl View for Monitoring {
    type V = MonitoringView;

    closed spec fn view(&self) -> MonitoringView {
        MonitoringView {
            self_update_enabled: self.self_update_enabled,
            total_installed_cpu: self.total_installed_cpu,
            total_installed_memory: self.total_installed_memory,
            scheduler_used_cpu: self.scheduler_used_cpu,
            scheduler_used_memory: self.scheduler_used_memory,
            kubelets_used_cpu: self.kubelets_used_cpu,
            kubelets_used_memory: self.kubelets_used_memory,
            n_pod_in_simulation: self.n_pod_in_simulation,
            pending_pod_counter: self.pending_pod_counter,
            finished_pod_counter: self.finished_pod_counter,
        }
    }
}

impl Monitoring {
    /// All counters at zero, the periodic report off.
    pub fn new() -> (r: Self)
        ensures
            r@ == (MonitoringView {
                self_update_enabled: false,
                total_installed_cpu: 0,
                total_installed_memory: 0,
                scheduler_used_cpu: 0,
                scheduler_used_memory: 0,
                kubelets_used_cpu: 0,
                kubelets_used_memory: 0,
                n_pod_in_simulation: 0,
                pending_pod_counter: 0,
                finished_pod_counter: 0,
            }),
    {
        Monitoring {
            self_update_enabled: false,
            total_installed_cpu: 0,
            total_installed_memory: 0,
            scheduler_used_cpu: 0,
            scheduler_used_memory: 0,
            kubelets_used_cpu: 0,
            kubelets_used_memory: 0,
            n_pod_in_simulation: 0,
            pending_pod_counter: 0,
            finished_pod_counter: 0,
        }
    }

    /// Turns the periodic report on, telling whether it was off (its first
    /// update must then be scheduled).
    pub fn presimulation_init(&mut self) -> (r: bool)
        ensures
            r == !old(self)@.self_update_enabled,
            final(self)@ == (MonitoringView { self_update_enabled: true, ..old(self)@ }),
    {
        let was_off = !self.self_update_enabled;
        self.self_update_enabled = true;
        was_off
    }

    /// Whether the periodic report is on, as it must be when the simulation
    /// starts.
    pub fn presimulation_check(&self) -> (r: bool)
        ensures
            r == self@.self_update_enabled,
    {
        self.self_update_enabled
    }

    pub fn self_update_enabled(&self) -> (r: bool)
        ensures
            r == self@.self_update_enabled,
    {
        self.self_update_enabled
    }

    pub fn set_n_pod_in_simulation(&mut self, n_pod_in_simulation: u64)
        ensures
            final(self)@ == (MonitoringView { n_pod_in_simulation: n_pod_in_simulation, ..old(self)@ }),
    {
        self.n_pod_in_simulation = n_pod_in_simulation;
    }

    /// The scheduler handed out resources of a node.
    pub fn scheduler_on_node_consume(&mut self, cpu: u64, memory: u64)
        requires
            old(self)@.scheduler_used_cpu + cpu <= u64::MAX,
            old(self)@.scheduler_used_memory + memory <= u64::MAX,
        ensures
            final(self)@ == (MonitoringView {
                scheduler_used_cpu: (old(self)@.scheduler_used_cpu + cpu) as u64,
                scheduler_used_memory: (old(self)@.scheduler_used_memory + memory) as u64,
                ..old(self)@
            }),
    {
        self.scheduler_used_cpu = self.scheduler_used_cpu + cpu;
        self.scheduler_used_memory = self.scheduler_used_memory + memory;
    }

    /// The scheduler got resources of a node back; never more than it had
    /// handed out.
    pub fn scheduler_on_node_restore(&mut self, cpu: u64, memory: u64)
        requires
            old(self)@.scheduler_used_cpu >= cpu,
            old(self)@.scheduler_used_memory >= memory,
        ensures
            final(self)@ == (MonitoringView {
                scheduler_used_cpu: (old(self)@.scheduler_used_cpu - cpu) as u64,
                scheduler_used_memory: (old(self)@.scheduler_used_memory - memory) as u64,
                ..old(self)@
            }),
    {
        self.scheduler_used_cpu = self.scheduler_used_cpu - cpu;
        self.scheduler_used_memory = self.scheduler_used_memory - memory;
    }

    /// A node with all its resources available joined the cluster.
    pub fn scheduler_on_node_added(&mut self, node: &Node)
        requires
            node@.available_cpu == node@.installed_cpu,
            node@.available_memory == node@.installed_memory,
            old(self)@.total_installed_cpu + node@.installed_cpu <= u64::MAX,
            old(self)@.total_installed_memory + node@.installed_memory <= u64::MAX,
        ensures
            final(self)@ == (MonitoringView {
                total_installed_cpu: (old(self)@.total_installed_cpu + node@.installed_cpu) as u64,
                total_installed_memory: (old(self)@.total_installed_memory + node@.installed_memory) as u64,
                ..old(self)@
            }),
    {
        self.total_installed_cpu = self.total_installed_cpu + node.spec.installed_cpu;
        self.total_installed_memory = self.total_installed_memory + node.spec.installed_memory;
    }

    pub fn scheduler_update_pending_pod_count(&mut self, count: usize)
        ensures
            final(self)@ == (MonitoringView { pending_pod_counter: count, ..old(self)@ }),
    {
        self.pending_pod_counter = count;
    }

    /// A kubelet started using resources for a pod.
    pub fn kubelet_on_pod_placed(&mut self, cpu: u64, memory: u64)
        requires
            old(self)@.kubelets_used_cpu + cpu <= u64::MAX,
            old(self)@.kubelets_used_memory + memory <= u64::MAX,
        ensures
            final(self)@ == (MonitoringView {
                kubelets_used_cpu: (old(self)@.kubelets_used_cpu + cpu) as u64,
                kubelets_used_memory: (old(self)@.kubelets_used_memory + memory) as u64,
                ..old(self)@
            }),
    {
        self.kubelets_used_cpu = self.kubelets_used_cpu + cpu;
        self.kubelets_used_memory = self.kubelets_used_memory + memory;
    }

    /// A kubelet stopped using resources for a pod; never more than it used.
    pub fn kubelet_on_pod_unplaced(&mut self, cpu: u64, memory: u64)
        requires
            old(self)@.kubelets_used_cpu >= cpu,
            old(self)@.kubelets_used_memory >= memory,
        ensures
            final(self)@ == (MonitoringView {
                kubelets_used_cpu: (old(self)@.kubelets_used_cpu - cpu) as u64,
                kubelets_used_memory: (old(self)@.kubelets_used_memory - memory) as u64,
                ..old(self)@
            }),
    {
        self.kubelets_used_cpu = self.kubelets_used_cpu - cpu;
        self.kubelets_used_memory = self.kubelets_used_memory - memory;
    }

    /// A pod finished. When it is the last pod of the simulation the
    /// periodic report stops and the result is true: the makespan is reached.
    pub fn kubelet_on_pod_finished(&mut self) -> (r: bool)
        requires
            old(self)@.finished_pod_counter < u64::MAX,
        ensures
            r == (old(self)@.finished_pod_counter + 1 == old(self)@.n_pod_in_simulation),
            final(self)@ == (MonitoringView {
                finished_pod_counter: (old(self)@.finished_pod_counter + 1) as u64,
                self_update_enabled: if r {
                    false
                } else {
                    old(self)@.self_update_enabled
                },
                ..old(self)@
            }),
    {
        self.finished_pod_counter = self.finished_pod_counter + 1;
        if self.finished_pod_counter == self.n_pod_in_simulation {
            self.self_update_enabled = false;
            true
        } else {
            false
        }
    }

    /// The counters a report prints: kubelets' and scheduler's CPU, total
    /// CPU, kubelets' and scheduler's memory, total memory, finished pods,
    /// pods in the simulation, pending pods.
    pub fn statistics(&self) -> (r: (u64, u64, u64, u64, u64, u64, u64, u64, usize))
        ensures
            r == (
                self@.kubelets_used_cpu,
                self@.scheduler_used_cpu,
                self@.total_installed_cpu,
                self@.kubelets_used_memory,
                self@.scheduler_used_memory,
                self@.total_installed_memory,
                self@.finished_pod_counter,
                self@.n_pod_in_simulation,
                self@.pending_pod_counter,
            ),
    {
        (
            self.kubelets_used_cpu,
            self.scheduler_used_cpu,
            self.total_installed_cpu,
            self.kubelets_used_memory,
            self.scheduler_used_memory,
            self.total_installed_memory,
            self.finished_pod_counter,
            self.n_pod_in_simulation,
            self.pending_pod_counter,
        )
    }
}

/// Handing resources out and getting them back leaves the scheduler's
/// counters as they were.
pub proof fn lemma_consume_restore_round_trip(m: MonitoringView, cpu: u64, memory: u64)
    requires
        m.scheduler_used_cpu + cpu <= u64::MAX,
        m.scheduler_used_memory + memory <= u64::MAX,
    ensures
        ({
            let consumed = MonitoringView {
                scheduler_used_cpu: (m.scheduler_used_cpu + cpu) as u64,
                scheduler_used_memory: (m.scheduler_used_memory + memory) as u64,
                ..m
            };
            MonitoringView {
                scheduler_used_cpu: (consumed.scheduler_used_cpu - cpu) as u64,
                scheduler_used_memory: (consumed.scheduler_used_memory - memory) as u64,
                ..consumed
            } == m
        }),
{
}

} // verus!
