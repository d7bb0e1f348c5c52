//! The `RedisCluster` resource: sharded masters, each with its replicas.

use vstd::prelude::*;

use super::redis::{
    EvictionPolicy, PersistenceSpec, PodDisruptionBudgetSpec, ResourcesSpec, StorageSpec,
};
use crate::number;
use crate::objects::TopologySpreadConstraint;

verus! {

/// A `RedisCluster` object: its name and what it asks for.
#[derive(Clone, Debug, PartialEq)]
pub struct RedisCluster {
    pub name: String,
    pub spec: RedisClusterSpec,
}

impl RedisCluster {
    pub fn new(name: &str, spec: RedisClusterSpec) -> (r: Self)
        ensures
            r.name@ == name@,
            r.spec == spec,
    {
        RedisCluster { name: name.to_string(), spec }
    }
}

#[derive(Clone, Debug, PartialEq)]
pub struct RedisClusterSpec {
    pub masters: i32,
    pub replicas_per_master: i32,
    pub image: String,
    /// A volume for `/data`; an empty directory where unset.
    pub storage: Option<StorageSpec>,
    /// How the dataset is written to disk. `/data` is mounted whatever this
    /// says, because it holds each pod's cluster identity too.
    pub persistence: Option<PersistenceSpec>,
    /// What Redis does once it reaches `maxmemory`; `noeviction` where unset.
    pub eviction_policy: Option<EvictionPolicy>,
    /// Requests and limits of the container, merged per key into the defaults.
    pub resources: Option<ResourcesSpec>,
    /// A disruption budget, checked against what the topology survives.
    pub pod_disruption_budget: Option<PodDisruptionBudgetSpec>,
    /// Overrides the default spread of the pods; `[]` opts out.
    pub topology_spread_constraints: Option<Vec<TopologySpreadConstraint>>,
}

impl Default for RedisClusterSpec {
    fn default() -> (r: Self)
        ensures
            r.masters == 0,
            r.replicas_per_master == 0,
            r.image@.len() == 0,
            r.storage is None,
            r.persistence is None,
            r.eviction_policy is None,
            r.resources is None,
            r.pod_disruption_budget is None,
            r.topology_spread_constraints is None,
    {
        RedisClusterSpec {
            masters: 0,
            replicas_per_master: 0,
            image: String::new(),
            storage: None,
            persistence: None,
            eviction_policy: None,
            resources: None,
            pod_disruption_budget: None,
            topology_spread_constraints: None,
        }
    }
}

/// What the operator reports of a `RedisCluster` object.
#[derive(Clone, Debug, PartialEq)]
pub struct RedisClusterStatus {
    /// Nodes that the cluster knows of.
    pub ready_nodes: i32,
    /// `Running` when the cluster is ok, every slot is assigned and replicas
    /// are evenly spread; otherwise `Degraded` or `Pending`.
    pub phase: Option<String>,
    /// `cluster_state` as Redis reports it.
    pub cluster_state: Option<String>,
    pub masters: i32,
    pub replicas: i32,
    /// How far the masters are from their wanted number of replicas, summed.
    pub replica_imbalance: i32,
    /// Slots owned by all masters together.
    pub slots_assigned: i32,
    /// One entry per node, in the order of host names.
    pub nodes: Vec<NodeStatus>,
}

impl Default for RedisClusterStatus {
    fn default() -> (r: Self)
        ensures
            r.ready_nodes == 0,
            r.phase is None,
            r.cluster_state is None,
            r.masters == 0,
            r.replicas == 0,
            r.replica_imbalance == 0,
            r.slots_assigned == 0,
            r.nodes@.len() == 0,
    {
        RedisClusterStatus {
            ready_nodes: 0,
            phase: None,
            cluster_state: None,
            masters: 0,
            replicas: 0,
            replica_imbalance: 0,
            slots_assigned: 0,
            nodes: Vec::new(),
        }
    }
}

/// What the operator reports of one node.
#[derive(Clone, Debug, PartialEq)]
pub struct NodeStatus {
    pub id: String,
    pub hostname: String,
    /// `master` or `replica`.
    pub role: String,
    /// Of a replica, the node that it replicates.
    pub master_id: String,
    /// Of a master, the slots that it owns.
    pub slot_count: i32,
    /// Of a master, the replicas attached to it.
    pub replica_count: i32,
}

/// Pods of a cluster of `masters` shards with `replicas_per_master` replicas each.
pub open spec fn pod_count(masters: int, replicas_per_master: int) -> int {
    masters * (1 + replicas_per_master)
}

/// Whether the number of pods can be computed in the width of its type.
pub open spec fn pods_fit(masters: i32, replicas_per_master: i32) -> bool {
    &&& replicas_per_master < i32::MAX
    &&& i32::MIN <= pod_count(masters as int, replicas_per_master as int) <= i32::MAX
}

impl RedisClusterSpec {
    /// Pods that may be down at once while every slot is served.
    pub open spec fn slack(self) -> int {
        let majority_slack = number::quotient(self.masters - 1, 2);
        let least = if majority_slack < self.replicas_per_master {
            majority_slack
        } else {
            self.replicas_per_master as int
        };
        if least > 0 {
            least
        } else {
            0
        }
    }

    /// Pods of the stateful set: one per master, and each master's replicas.
    pub fn total_pods(&self) -> (n: i32)
        requires
            pods_fit(self.masters, self.replicas_per_master),
        ensures
            n == pod_count(self.masters as int, self.replicas_per_master as int),
    {
        total_pods(self.masters, self.replicas_per_master)
    }

    /// Pods that may be down at once while every slot is served, wherever the
    /// evictions land. Nothing tells which pod belongs to which shard, so no
    /// more may go than one shard has replicas; and the masters that are left
    /// must be a majority, to vote a replica in.
    pub fn safe_max_unavailable(&self) -> (n: i32)
        requires
            self.masters > i32::MIN,
        ensures
            n == self.slack(),
    {
        let majority_slack: i32 = (self.masters - 1) / 2;
        let least: i32 = if majority_slack < self.replicas_per_master {
            majority_slack
        } else {
            self.replicas_per_master
        };
        if least > 0 {
            least
        } else {
            0
        }
    }

    /// With as many pods down as may be, every shard has a pod left and the
    /// masters left are a majority, wherever the pods that went stood. Without
    /// replicas, or with fewer than 3 masters, none may go.
    pub proof fn lemma_slack_keeps_cluster(self)
        ensures
            self.slack() >= 0,
            self.replicas_per_master >= 0 ==> 1 + self.replicas_per_master - self.slack() >= 1,
            self.masters >= 1 ==> 2 * (self.masters - self.slack()) > self.masters,
            self.masters < 3 || self.replicas_per_master <= 0 ==> self.slack() == 0,
            self.masters >= 3 && self.replicas_per_master >= 1 ==> self.slack() >= 1,
    {
    }
}

/// Pods of a cluster of `masters` shards with `replicas_per_master` replicas each.
pub fn total_pods(masters: i32, replicas_per_master: i32) -> (n: i32)
    requires
        pods_fit(masters, replicas_per_master),
    ensures
        n == pod_count(masters as int, replicas_per_master as int),
{
    masters * (1 + replicas_per_master)
}

/// Masters of a cluster that does not say how many.
pub fn default_masters() -> (n: i32)
    ensures
        n == 3,
{
    3
}

/// Replicas per master of a cluster that does not say how many.
pub fn default_replicas_per_master() -> (n: i32)
    ensures
        n == 1,
{
    1
}

/// The image of a cluster that names none.
pub fn default_image() -> (s: String)
    ensures
        s@ == "redis:8"@,
{
    "redis:8".to_string()
}

impl RedisClusterSpec {
    /// No more pods may go than are sure to leave a majority of masters and a pod of
    /// every shard, and one more would not be sure to.
    pub proof fn lemma_slack_is_greatest(self)
        requires
            self.masters >= 1,
            self.replicas_per_master >= 0,
        ensures
            2 * (self.masters - self.slack()) > self.masters,
            self.slack() <= self.replicas_per_master,
            2 * (self.masters - (self.slack() + 1)) <= self.masters || self.slack() + 1
                > self.replicas_per_master,
            pod_count(self.masters as int, self.replicas_per_master as int) == self.masters
                + self.masters * self.replicas_per_master,
    {
        let a = self.masters as int;
        let b = self.replicas_per_master as int;
        assert(a * (1 + b) == a + a * b) by (nonlinear_arith);
    }
}

} // verus!
