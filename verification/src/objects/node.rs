use vstd::prelude::*;
use crate::objects::object_meta::ObjectMeta;
use crate::objects::uid::UidCounter;
use crate::scheduler::features::taints_tolerations::Taint;

verus! {

/// Installed and still available resources of a node (milli-CPU and bytes),
/// and its taints.
#[derive(Debug)]
pub struct NodeSpec {
    pub installed_cpu: u64,
    pub installed_memory: u64,
    pub available_cpu: u64,
    pub available_memory: u64,
    pub taints: Vec<Taint>,
}

/// The pods placed on a node, by uid.
#[derive(Debug)]
pub struct NodeStatus {
    pub pods: Vec<u64>,
}

#[derive(Debug)]
pub struct Node {
    pub spec: NodeSpec,
    pub metadata: ObjectMeta,
    pub status: NodeStatus,
}

/// The model of a node: its resources, taints, labels, ids and the uids of
/// the pods placed on it.
pub struct NodeView {
    pub installed_cpu: u64,
    pub installed_memory: u64,
    pub available_cpu: u64,
    pub available_memory: u64,
    pub taints: Seq<Taint>,
    pub labels: Seq<(Seq<char>, Seq<char>)>,
    pub uid: u64,
    pub group_uid: u64,
    pub pods: Seq<u64>,
}

impl View for Node {
    type V = NodeView;

    open spec fn view(&self) -> NodeView {
        NodeView {
            installed_cpu: self.spec.installed_cpu,
            installed_memory: self.spec.installed_memory,
            available_cpu: self.spec.available_cpu,
            available_memory: self.spec.available_memory,
            taints: self.spec.taints@,
            labels: self.metadata.labels@,
            uid: self.metadata.uid,
            group_uid: self.metadata.group_uid,
            pods: self.status.pods@,
        }
    }
}

impl Clone for Node {
    fn clone(&self) -> (r: Self)
        ensures
            r@ == self@,
    {
        let taints = self.spec.taints.clone();
        assert(taints@ =~= self.spec.taints@);
        let pods = self.status.pods.clone();
        assert(pods@ =~= self.status.pods@);
        Node {
            spec: NodeSpec {
                installed_cpu: self.spec.installed_cpu,
                installed_memory: self.spec.installed_memory,
                available_cpu: self.spec.available_cpu,
                available_memory: self.spec.available_memory,
                taints,
            },
            metadata: self.metadata.clone(),
            status: NodeStatus { pods },
        }
    }
}

impl NodeView {
    /// What is available never exceeds what is installed.
    pub open spec fn resources_wf(self) -> bool {
        &&& self.available_cpu <= self.installed_cpu
        &&& self.available_memory <= self.installed_memory
    }

    /// The node with `cpu` and `memory` taken from what is available.
    pub open spec fn consumed(self, cpu: u64, memory: u64) -> NodeView {
        NodeView {
            available_cpu: (self.available_cpu - cpu) as u64,
            available_memory: (self.available_memory - memory) as u64,
            ..self
        }
    }

    /// The node with `cpu` and `memory` given back to what is available.
    pub open spec fn restored(self, cpu: u64, memory: u64) -> NodeView {
        NodeView {
            available_cpu: (self.available_cpu + cpu) as u64,
            available_memory: (self.available_memory + memory) as u64,
            ..self
        }
    }
}

impl Default for Node {
    /// A node with nothing installed, no taints, no labels, uid 0 and no pods.
    fn default() -> (r: Self)
        ensures
            r@.installed_cpu == 0,
            r@.installed_memory == 0,
            r@.available_cpu == 0,
            r@.available_memory == 0,
            r@.taints.len() == 0,
            r@.labels.len() == 0,
            r@.uid == 0,
            r@.group_uid == 0,
            r@.pods.len() == 0,
    {
        Node {
            spec: NodeSpec {
                installed_cpu: 0,
                installed_memory: 0,
                available_cpu: 0,
                available_memory: 0,
                taints: Vec::new(),
            },
            metadata: ObjectMeta::new(),
            status: NodeStatus { pods: Vec::new() },
        }
    }
}

impl Node {
    /// A node's resource accounting is sound: what is available never exceeds
    /// what is installed.
    pub open spec fn resources_wf(&self) -> bool {
        self@.resources_wf()
    }

    /// Readies a node read from a configuration: gives it the next uid and
    /// makes all installed resources available. A node with no CPU or
    /// no memory installed is not accepted.
    pub fn prepare(&mut self, uids: &mut UidCounter)
        requires
            old(self).spec.installed_cpu > 0,
            old(self).spec.installed_memory > 0,
        ensures
            final(uids).peek() == (if old(uids).peek() == u64::MAX { 0 } else { (old(uids).peek() + 1) as u64 }),
            final(self)@ == (NodeView {
                uid: old(uids).peek(),
                available_cpu: old(self)@.installed_cpu,
                available_memory: old(self)@.installed_memory,
                ..old(self)@
            }),
            final(self).resources_wf(),
    {
        self.metadata.uid = uids.next_uid();
        self.spec.available_cpu = self.spec.installed_cpu;
        self.spec.available_memory = self.spec.installed_memory;
    }

    /// Whether `cpu` and `memory` can be taken from what is available.
    pub fn is_consumable(&self, cpu: u64, memory: u64) -> (r: bool)
        ensures
            r == (self.spec.available_cpu >= cpu && self.spec.available_memory >= memory),
    {
        self.spec.available_cpu >= cpu && self.spec.available_memory >= memory
    }

    /// Takes `cpu` and `memory` from what is available. Never more than is
    /// available.
    pub fn consume(&mut self, cpu: u64, memory: u64)
        requires
            old(self).spec.available_cpu >= cpu,
            old(self).spec.available_memory >= memory,
        ensures
            final(self)@ == old(self)@.consumed(cpu, memory),
    {
        self.spec.available_cpu = self.spec.available_cpu - cpu;
        self.spec.available_memory = self.spec.available_memory - memory;
    }

    /// Gives `cpu` and `memory` back. Never more is available
    /// afterwards than is installed.
    pub fn restore(&mut self, cpu: u64, memory: u64)
        requires
            old(self).spec.available_cpu + cpu <= old(self).spec.installed_cpu,
            old(self).spec.available_memory + memory <= old(self).spec.installed_memory,
        ensures
            final(self)@ == old(self)@.restored(cpu, memory),
            final(self).resources_wf(),
    {
        self.spec.available_cpu = self.spec.available_cpu + cpu;
        self.spec.available_memory = self.spec.available_memory + memory;
    }
}

/// Taking resources from a node and giving them back leaves the node as it
/// was.
pub proof fn lemma_consume_then_restore(node: NodeView, cpu: u64, memory: u64)
    requires
        node.available_cpu >= cpu,
        node.available_memory >= memory,
    ensures
        node.consumed(cpu, memory).restored(cpu, memory) == node,
{
}

/// Giving resources back and taking them again leaves the node as it was.
pub proof fn lemma_restore_then_consume(node: NodeView, cpu: u64, memory: u64)
    requires
        node.available_cpu + cpu <= node.installed_cpu,
        node.available_memory + memory <= node.installed_memory,
    ensures
        node.restored(cpu, memory).consumed(cpu, memory) == node,
{
}

/// Taking resources keeps a sound node sound.
pub proof fn lemma_consume_keeps_wf(node: NodeView, cpu: u64, memory: u64)
    requires
        node.resources_wf(),
        node.available_cpu >= cpu,
        node.available_memory >= memory,
    ensures
        node.consumed(cpu, memory).resources_wf(),
{
}

} // verus!
