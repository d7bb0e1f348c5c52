//! The `Redis` resource: one primary with replicas, and Sentinel where asked for.

use vstd::prelude::*;

use crate::number;
use crate::objects::{IntOrString, TopologySpreadConstraint};
use crate::str_map::StrMap;

verus! {

/// A `Redis` object: its name and what it asks for.
#[derive(Clone, Debug, PartialEq)]
pub struct Redis {
    pub name: String,
    pub spec: RedisSpec,
}

impl Redis {
    pub fn new(name: &str, spec: RedisSpec) -> (r: Self)
        ensures
            r.name@ == name@,
            r.spec == spec,
    {
        Redis { name: name.to_string(), spec }
    }
}

#[derive(Clone, Debug, PartialEq)]
pub struct RedisSpec {
    /// Data pods, the primary among them.
    pub replicas: i32,
    pub image: String,
    /// A volume for `/data`; an empty directory where unset.
    pub storage: Option<StorageSpec>,
    /// Requests and limits of the Redis container, merged per key into the
    /// defaults. `maxmemory` follows from the effective memory limit.
    pub resources: Option<ResourcesSpec>,
    /// What Redis does once it reaches `maxmemory`; `noeviction` where unset.
    pub eviction_policy: Option<EvictionPolicy>,
    /// How the dataset is written to disk.
    pub persistence: Option<PersistenceSpec>,
    /// Sentinels for automatic failover.
    pub sentinel: Option<SentinelSpec>,
    /// Overrides the automatic budget of the data pods; `{}` opts out.
    pub pod_disruption_budget: Option<PodDisruptionBudgetSpec>,
    /// Overrides the default spread of the data pods; `[]` opts out.
    pub topology_spread_constraints: Option<Vec<TopologySpreadConstraint>>,
}

impl Default for RedisSpec {
    fn default() -> (r: Self)
        ensures
            r.replicas == 0,
            r.image@.len() == 0,
            r.storage is None,
            r.resources is None,
            r.eviction_policy is None,
            r.persistence is None,
            r.sentinel is None,
            r.pod_disruption_budget is None,
            r.topology_spread_constraints is None,
    {
        RedisSpec {
            replicas: 0,
            image: String::new(),
            storage: None,
            resources: None,
            eviction_policy: None,
            persistence: None,
            sentinel: None,
            pod_disruption_budget: None,
            topology_spread_constraints: None,
        }
    }
}

#[derive(Clone, Debug, PartialEq)]
pub struct SentinelSpec {
    /// Sentinel pods. Fewer than 3 tolerate no failure.
    pub replicas: i32,
    /// Sentinels that must agree that the primary is down; a majority of
    /// `replicas` where unset.
    pub quorum: Option<i32>,
    /// The name under which the primary is monitored.
    pub master_name: Option<String>,
    /// Image of the Sentinel pods; that of the Redis pods where unset.
    pub image: Option<String>,
    /// A volume for `sentinel.conf`.
    pub storage: Option<StorageSpec>,
    /// Requests and limits; a small default where unset, none at all for `{}`.
    pub resources: Option<ResourcesSpec>,
    /// Overrides the automatic budget of the Sentinel pods; `{}` opts out.
    pub pod_disruption_budget: Option<PodDisruptionBudgetSpec>,
    /// Overrides the default spread of the Sentinel pods; `[]` opts out.
    pub topology_spread_constraints: Option<Vec<TopologySpreadConstraint>>,
}

impl Default for SentinelSpec {
    fn default() -> (r: Self)
        ensures
            r.replicas == 0,
            r.quorum is None,
            r.master_name is None,
            r.image is None,
            r.storage is None,
            r.resources is None,
            r.pod_disruption_budget is None,
            r.topology_spread_constraints is None,
    {
        SentinelSpec {
            replicas: 0,
            quorum: None,
            master_name: None,
            image: None,
            storage: None,
            resources: None,
            pod_disruption_budget: None,
            topology_spread_constraints: None,
        }
    }
}

/// Requests and limits of a container, by resource name.
#[derive(Clone, Debug, PartialEq)]
pub struct ResourcesSpec {
    pub requests: Option<StrMap<String>>,
    pub limits: Option<StrMap<String>>,
}

/// A disruption budget as a user asks for it. One of `min_available` and
/// `max_unavailable` is to be set; neither means that no budget is wanted.
#[derive(Debug, PartialEq)]
pub struct PodDisruptionBudgetSpec {
    pub min_available: Option<IntOrString>,
    pub max_unavailable: Option<IntOrString>,
    pub unhealthy_pod_eviction_policy: Option<String>,
}

impl Clone for PodDisruptionBudgetSpec {
    fn clone(&self) -> (r: Self)
        ensures
            r == *self,
    {
        PodDisruptionBudgetSpec {
            min_available: match &self.min_available {
                Some(v) => Some(v.clone()),
                None => None,
            },
            max_unavailable: match &self.max_unavailable {
                Some(v) => Some(v.clone()),
                None => None,
            },
            unhealthy_pod_eviction_policy: match &self.unhealthy_pod_eviction_policy {
                Some(s) => Some(s.clone()),
                None => None,
            },
        }
    }
}

impl Default for PodDisruptionBudgetSpec {
    fn default() -> (r: Self)
        ensures
            r.min_available is None,
            r.max_unavailable is None,
            r.unhealthy_pod_eviction_policy is None,
    {
        PodDisruptionBudgetSpec {
            min_available: None,
            max_unavailable: None,
            unhealthy_pod_eviction_policy: None,
        }
    }
}

/// The name under which Sentinel monitors the primary unless told otherwise.
pub const DEFAULT_MASTER_NAME: &'static str = "mymaster";

impl SentinelSpec {
    /// More than half of the sentinels.
    pub open spec fn majority(self) -> int {
        number::quotient(self.replicas as int, 2) + 1
    }

    /// Sentinels that must agree that the primary is down.
    pub open spec fn quorum_size(self) -> int {
        match self.quorum {
            Some(q) => q as int,
            None => self.majority(),
        }
    }

    /// The name under which the primary is monitored.
    pub open spec fn master_name_view(self) -> Seq<char> {
        match self.master_name {
            Some(n) => n@,
            None => DEFAULT_MASTER_NAME@,
        }
    }

    /// Sentinels that must stay up: enough to agree and enough to elect.
    pub open spec fn survivors(self) -> int {
        if self.quorum_size() > self.majority() {
            self.quorum_size()
        } else {
            self.majority()
        }
    }

    /// Sentinels that may be down at once.
    pub open spec fn slack(self) -> int {
        if self.replicas > self.survivors() {
            self.replicas - self.survivors()
        } else {
            0
        }
    }

    /// The explicit quorum, otherwise a majority of `replicas`.
    pub fn effective_quorum(&self) -> (q: i32)
        ensures
            q == self.quorum_size(),
    {
        match self.quorum {
            Some(q) => q,
            None => self.replicas / 2 + 1,
        }
    }

    /// The explicit name, otherwise [`DEFAULT_MASTER_NAME`].
    pub fn effective_master_name(&self) -> (n: &str)
        ensures
            n@ == self.master_name_view(),
    {
        match &self.master_name {
            Some(n) => n.as_str(),
            None => DEFAULT_MASTER_NAME,
        }
    }

    /// Sentinels that must stay up for failover to work. Agreeing that the
    /// primary is down takes the quorum; electing the one that fails over takes
    /// a majority of the set, however low the quorum is.
    pub fn min_available(&self) -> (m: i32)
        ensures
            m == self.survivors(),
    {
        let quorum: i32 = self.effective_quorum();
        let majority: i32 = self.replicas / 2 + 1;
        if quorum > majority {
            quorum
        } else {
            majority
        }
    }

    /// Sentinels that may be down at once.
    pub fn safe_max_unavailable(&self) -> (n: i32)
        requires
            self.replicas - self.survivors() >= i32::MIN,
        ensures
            n == self.slack(),
    {
        let rest: i32 = self.replicas - self.min_available();
        if rest > 0 {
            rest
        } else {
            0
        }
    }

    /// With as many sentinels down as may be, those left can still elect a
    /// leader, and still agree that the primary is down unless the quorum is
    /// more than all of them. Where it is not, no more than all of them are asked
    /// to stay up.
    pub proof fn lemma_slack_keeps_failover(self)
        requires
            self.replicas >= 1,
        ensures
            2 * (self.replicas - self.slack()) > self.replicas,
            0 <= self.slack() < self.replicas,
            self.quorum_size() <= self.replicas ==> {
                &&& self.replicas - self.slack() >= self.quorum_size()
                &&& self.survivors() <= self.replicas
            },
    {
    }

    /// Fewer than 3 sentinels tolerate no loss, and from 3 on one may go unless
    /// the quorum asks for all of them.
    pub proof fn lemma_slack_from_three(self)
        ensures
            self.replicas < 3 ==> self.slack() == 0,
            self.replicas >= 3 && self.quorum_size() < self.replicas ==> self.slack() >= 1,
    {
    }
}

impl RedisSpec {
    /// Data pods that may be down at once while one copy of the data is served.
    pub open spec fn slack(self) -> int {
        if self.replicas > 1 {
            self.replicas - 1
        } else {
            0
        }
    }

    /// Data pods that may be down at once while one copy of the data is served.
    pub fn safe_max_unavailable(&self) -> (n: i32)
        requires
            self.replicas > i32::MIN,
        ensures
            n == self.slack(),
    {
        let rest: i32 = self.replicas - 1;
        if rest > 0 {
            rest
        } else {
            0
        }
    }

    /// Of one or more data pods, one is left.
    pub proof fn lemma_slack_leaves_one(self)
        requires
            self.replicas >= 1,
        ensures
            self.replicas - self.slack() == 1,
    {
    }
}

#[derive(Clone, Debug, PartialEq)]
pub struct StorageSpec {
    pub size: String,
    pub storage_class: Option<String>,
    pub retention: Option<RetentionSpec>,
}

impl Default for StorageSpec {
    fn default() -> (r: Self)
        ensures
            r.size@.len() == 0,
            r.storage_class is None,
            r.retention is None,
    {
        StorageSpec { size: String::new(), storage_class: None, retention: None }
    }
}

/// The volume size that a storage block without one asks for.
pub fn default_storage_size() -> (s: String)
    ensures
        s@ == "1Gi"@,
{
    "1Gi".to_string()
}

/// How the dataset is written to disk so that it survives a restart. An absent
/// block means the same as an empty one: snapshots and the append-only file.
#[derive(Clone, Debug, PartialEq)]
pub struct PersistenceSpec {
    /// Turns both off, whatever the blocks below say.
    pub enabled: bool,
    pub rdb: Option<RdbSpec>,
    pub aof: Option<AofSpec>,
}

impl Default for PersistenceSpec {
    fn default() -> (r: Self)
        ensures
            r.enabled,
            r.rdb is None,
            r.aof is None,
    {
        PersistenceSpec { enabled: true, rdb: None, aof: None }
    }
}

/// Point-in-time snapshots.
#[derive(Clone, Debug, PartialEq)]
pub struct RdbSpec {
    pub enabled: bool,
    /// Snapshot triggers, each `<seconds> <changes>`; those of Redis where unset.
    pub save: Option<Vec<String>>,
}

impl Default for RdbSpec {
    fn default() -> (r: Self)
        ensures
            r.enabled,
            r.save is None,
    {
        RdbSpec { enabled: true, save: None }
    }
}

/// The append-only file.
#[derive(Clone, Debug, PartialEq)]
pub struct AofSpec {
    pub enabled: bool,
    /// How often the file is synced; every second where unset.
    pub fsync: Option<FsyncPolicy>,
}

impl Default for AofSpec {
    fn default() -> (r: Self)
        ensures
            r.enabled,
            r.fsync is None,
    {
        AofSpec { enabled: true, fsync: None }
    }
}

/// When the append-only file is synced.
#[derive(Clone, Copy, Debug, PartialEq, Eq)]
pub enum FsyncPolicy {
    /// On every write.
    Always,
    /// Once a second.
    Everysec,
    /// When the kernel sees fit.
    Never,
}

impl Default for FsyncPolicy {
    fn default() -> (r: Self)
        ensures
            r == FsyncPolicy::Everysec,
    {
        FsyncPolicy::Everysec
    }
}

impl FsyncPolicy {
    /// The `appendfsync` value that redis-server expects.
    pub open spec fn redis_value(self) -> Seq<char> {
        match self {
            FsyncPolicy::Always => "always"@,
            FsyncPolicy::Everysec => "everysec"@,
            FsyncPolicy::Never => "no"@,
        }
    }

    /// The `appendfsync` value that redis-server expects.
    pub fn as_redis_value(self) -> (s: &'static str)
        ensures
            s@ == self.redis_value(),
    {
        match self {
            FsyncPolicy::Always => "always",
            FsyncPolicy::Everysec => "everysec",
            FsyncPolicy::Never => "no",
        }
    }
}

/// What Redis does with the keyspace once `maxmemory` is reached.
#[derive(Clone, Copy, Debug, PartialEq, Eq)]
pub enum EvictionPolicy {
    /// Evict nothing; writes that need memory fail.
    NoEviction,
    /// Least recently used, over every key.
    AllkeysLru,
    /// Least frequently used, over every key.
    AllkeysLfu,
    /// At random, over every key.
    AllkeysRandom,
    /// Least recently used, over keys with a time to live.
    VolatileLru,
    /// Least frequently used, over keys with a time to live.
    VolatileLfu,
    /// At random, over keys with a time to live.
    VolatileRandom,
    /// Shortest time to live first.
    VolatileTtl,
}

impl Default for EvictionPolicy {
    fn default() -> (r: Self)
        ensures
            r == EvictionPolicy::NoEviction,
    {
        EvictionPolicy::NoEviction
    }
}

impl EvictionPolicy {
    /// The `maxmemory-policy` value that redis-server expects.
    pub open spec fn redis_value(self) -> Seq<char> {
        match self {
            EvictionPolicy::NoEviction => "noeviction"@,
            EvictionPolicy::AllkeysLru => "allkeys-lru"@,
            EvictionPolicy::AllkeysLfu => "allkeys-lfu"@,
            EvictionPolicy::AllkeysRandom => "allkeys-random"@,
            EvictionPolicy::VolatileLru => "volatile-lru"@,
            EvictionPolicy::VolatileLfu => "volatile-lfu"@,
            EvictionPolicy::VolatileRandom => "volatile-random"@,
            EvictionPolicy::VolatileTtl => "volatile-ttl"@,
        }
    }

    /// The `maxmemory-policy` value that redis-server expects.
    pub fn as_redis_value(self) -> (s: &'static str)
        ensures
            s@ == self.redis_value(),
    {
        match self {
            EvictionPolicy::NoEviction => "noeviction",
            EvictionPolicy::AllkeysLru => "allkeys-lru",
            EvictionPolicy::AllkeysLfu => "allkeys-lfu",
            EvictionPolicy::AllkeysRandom => "allkeys-random",
            EvictionPolicy::VolatileLru => "volatile-lru",
            EvictionPolicy::VolatileLfu => "volatile-lfu",
            EvictionPolicy::VolatileRandom => "volatile-random",
            EvictionPolicy::VolatileTtl => "volatile-ttl",
        }
    }

    /// No two policies are passed to redis-server under one name.
    pub proof fn lemma_values_distinct(self, other: Self)
        requires
            self != other,
        ensures
            self.redis_value() != other.redis_value(),
    {
        reveal_strlit("noeviction");
        reveal_strlit("allkeys-lru");
        reveal_strlit("allkeys-lfu");
        reveal_strlit("allkeys-random");
        reveal_strlit("volatile-lru");
        reveal_strlit("volatile-lfu");
        reveal_strlit("volatile-random");
        reveal_strlit("volatile-ttl");
        let a = self.redis_value();
        let b = other.redis_value();
        assert(a.len() != b.len() || a[0] != b[0] || a[9] != b[9] || a[10] != b[10]);
    }
}

/// What a switch that is not mentioned means: on.
pub fn default_true() -> (b: bool)
    ensures
        b,
{
    true
}

/// What becomes of volumes: `Retain` or `Delete`, `Retain` where unset.
#[derive(Clone, Debug, PartialEq)]
pub struct RetentionSpec {
    /// When the set is scaled down.
    pub when_scaled: Option<String>,
    /// When the set is deleted.
    pub when_deleted: Option<String>,
}

impl Default for RetentionSpec {
    fn default() -> (r: Self)
        ensures
            r.when_scaled is None,
            r.when_deleted is None,
    {
        RetentionSpec { when_scaled: None, when_deleted: None }
    }
}

/// What the operator reports of a `Redis` object.
#[derive(Clone, Debug, PartialEq)]
pub struct RedisStatus {
    pub ready_replicas: i32,
    pub phase: Option<String>,
    /// Host name of the current primary.
    pub primary_host: Option<String>,
    /// Pod name of the current primary.
    pub master_pod: Option<String>,
    /// Replicas that the primary reports as connected.
    pub connected_replicas: i32,
    /// Sentinel pods that are ready.
    pub sentinel_replicas_ready: i32,
}

/// Data pods of a resource that does not say how many.
pub fn default_replicas() -> (n: i32)
    ensures
        n == 1,
{
    1
}

/// Sentinel pods of a Sentinel block that does not say how many.
pub fn default_sentinel_replicas() -> (n: i32)
    ensures
        n == 3,
{
    3
}

/// The image of a resource that names none.
pub fn default_image() -> (s: String)
    ensures
        s@ == "redis:8"@,
{
    "redis:8".to_string()
}

impl SentinelSpec {
    /// Unless it is given, the quorum is the smallest majority. As many sentinels
    /// must stay as the larger of the quorum and the smallest majority says, and the
    /// others may go.
    pub proof fn lemma_quorum_is_majority(self)
        requires
            self.replicas >= 0,
        ensures
            self.quorum matches Some(q) ==> self.quorum_size() == q,
            self.quorum is None ==> {
                &&& 2 * self.quorum_size() > self.replicas
                &&& 2 * (self.quorum_size() - 1) <= self.replicas
            },
            self.survivors() >= self.quorum_size(),
            2 * self.survivors() > self.replicas,
            self.survivors() > self.quorum_size() ==> 2 * (self.survivors() - 1) <= self.replicas,
            self.slack() == (if self.survivors() < self.replicas {
                self.replicas - self.survivors()
            } else {
                0
            }),
    {
    }
}

impl EvictionPolicy {
    /// A policy is named after the keys that it is about and how it picks among them.
    pub proof fn lemma_value_is(self)
        ensures
            match self {
                EvictionPolicy::NoEviction => self.redis_value() == "noeviction"@,
                EvictionPolicy::AllkeysLru => self.redis_value() == "allkeys-"@ + "lru"@,
                EvictionPolicy::AllkeysLfu => self.redis_value() == "allkeys-"@ + "lfu"@,
                EvictionPolicy::AllkeysRandom => self.redis_value() == "allkeys-"@ + "random"@,
                EvictionPolicy::VolatileLru => self.redis_value() == "volatile-"@ + "lru"@,
                EvictionPolicy::VolatileLfu => self.redis_value() == "volatile-"@ + "lfu"@,
                EvictionPolicy::VolatileRandom => self.redis_value() == "volatile-"@ + "random"@,
                EvictionPolicy::VolatileTtl => self.redis_value() == "volatile-"@ + "ttl"@,
            },
    {
        reveal_strlit("allkeys-");
        reveal_strlit("volatile-");
        reveal_strlit("lru");
        reveal_strlit("lfu");
        reveal_strlit("random");
        reveal_strlit("ttl");
        reveal_strlit("allkeys-lru");
        reveal_strlit("allkeys-lfu");
        reveal_strlit("allkeys-random");
        reveal_strlit("volatile-lru");
        reveal_strlit("volatile-lfu");
        reveal_strlit("volatile-random");
        reveal_strlit("volatile-ttl");
        assert("allkeys-"@ + "lru"@ =~= "allkeys-lru"@);
        assert("allkeys-"@ + "lfu"@ =~= "allkeys-lfu"@);
        assert("allkeys-"@ + "random"@ =~= "allkeys-random"@);
        assert("volatile-"@ + "lru"@ =~= "volatile-lru"@);
        assert("volatile-"@ + "lfu"@ =~= "volatile-lfu"@);
        assert("volatile-"@ + "random"@ =~= "volatile-random"@);
        assert("volatile-"@ + "ttl"@ =~= "volatile-ttl"@);
    }
}

impl RedisSpec {
    /// All but one of the data pods may be down at once, and none where there is no
    /// other.
    pub proof fn lemma_all_but_one(self)
        ensures
            self.replicas >= 1 ==> self.slack() + 1 == self.replicas,
            self.replicas < 1 ==> self.slack() == 0,
    {
    }
}

} // verus!
