use redis_operator::crd;
use redis_operator::crd::redis::{EvictionPolicy, FsyncPolicy, RedisSpec, SentinelSpec};
use redis_operator::crd::redis_cluster::{total_pods, RedisClusterSpec};

const ALL_EVICTION_POLICIES: [EvictionPolicy; 8] = [
    EvictionPolicy::NoEviction,
    EvictionPolicy::AllkeysLru,
    EvictionPolicy::AllkeysLfu,
    EvictionPolicy::AllkeysRandom,
    EvictionPolicy::VolatileLru,
    EvictionPolicy::VolatileLfu,
    EvictionPolicy::VolatileRandom,
    EvictionPolicy::VolatileTtl,
];

#[test]
fn eviction_policy_defaults_to_noeviction() {
    assert_eq!(EvictionPolicy::default(), EvictionPolicy::NoEviction);
    assert_eq!(EvictionPolicy::default().as_redis_value(), "noeviction");
}

#[test]
fn eviction_policy_covers_every_redis_policy() {
    // The set redis-server accepts for `maxmemory-policy`. A variant added
    // here without a matching entry — or vice versa — fails this.
    let mut emitted: Vec<&str> = ALL_EVICTION_POLICIES
        .iter()
        .map(|p| p.as_redis_value())
        .collect();
    emitted.sort_unstable();
    assert_eq!(
        emitted,
        [
            "allkeys-lfu",
            "allkeys-lru",
            "allkeys-random",
            "noeviction",
            "volatile-lfu",
            "volatile-lru",
            "volatile-random",
            "volatile-ttl",
        ]
    );
}

#[test]
fn fsync_policies_are_spelled_as_redis_expects() {
    assert_eq!(FsyncPolicy::default(), FsyncPolicy::Everysec);
    assert_eq!(FsyncPolicy::Always.as_redis_value(), "always");
    assert_eq!(FsyncPolicy::Everysec.as_redis_value(), "everysec");
    assert_eq!(FsyncPolicy::Never.as_redis_value(), "no");
}

fn sentinel(replicas: i32, quorum: Option<i32>) -> SentinelSpec {
    SentinelSpec {
        replicas,
        quorum,
        ..Default::default()
    }
}

#[test]
fn sentinel_quorum_defaults_to_majority() {
    let s = SentinelSpec {
        replicas: 3,
        ..Default::default()
    };
    assert_eq!(s.effective_quorum(), 2);

    let s = SentinelSpec {
        replicas: 5,
        ..Default::default()
    };
    assert_eq!(s.effective_quorum(), 3);
}

#[test]
fn sentinel_quorum_honors_explicit_value() {
    let s = SentinelSpec {
        replicas: 5,
        quorum: Some(4),
        ..Default::default()
    };
    assert_eq!(s.effective_quorum(), 4);
}

#[test]
fn sentinel_master_name_defaults_to_mymaster() {
    assert_eq!(sentinel(3, None).effective_master_name(), "mymaster");
}

#[test]
fn sentinel_master_name_honors_an_explicit_value() {
    let spec = SentinelSpec {
        master_name: Some("cache-primary".into()),
        ..sentinel(3, None)
    };
    assert_eq!(spec.effective_master_name(), "cache-primary");
}

#[test]
fn sentinel_min_available_defaults_to_quorum() {
    assert_eq!(sentinel(3, None).min_available(), 2);
    assert_eq!(sentinel(5, None).min_available(), 3);
}

#[test]
fn sentinel_min_available_raises_low_explicit_quorum_to_majority() {
    // quorum 1 would permit eviction down to a set that provably cannot
    // elect a failover leader.
    assert_eq!(sentinel(5, Some(1)).min_available(), 3);
}

#[test]
fn sentinel_min_available_honors_high_explicit_quorum() {
    assert_eq!(sentinel(5, Some(4)).min_available(), 4);
}

#[test]
fn sentinel_safe_bound_allows_one_down_at_three_replicas() {
    assert_eq!(sentinel(3, None).safe_max_unavailable(), 1);
    assert_eq!(sentinel(5, None).safe_max_unavailable(), 2);
}

#[test]
fn sentinel_safe_bound_is_zero_below_three_replicas() {
    assert_eq!(sentinel(2, None).safe_max_unavailable(), 0);
    assert_eq!(sentinel(1, None).safe_max_unavailable(), 0);
}

#[test]
fn sentinel_majority_of_a_negative_count_rounds_towards_zero() {
    assert_eq!(sentinel(-3, None).effective_quorum(), 0);
    assert_eq!(sentinel(-3, None).safe_max_unavailable(), 0);
}

#[test]
fn redis_safe_bound_leaves_one_survivor() {
    let s = RedisSpec {
        replicas: 3,
        ..Default::default()
    };
    assert_eq!(s.safe_max_unavailable(), 2);
}

#[test]
fn redis_safe_bound_is_zero_for_single_replica() {
    let s = RedisSpec {
        replicas: 1,
        ..Default::default()
    };
    assert_eq!(s.safe_max_unavailable(), 0);
}

fn spec(masters: i32, replicas_per_master: i32) -> RedisClusterSpec {
    RedisClusterSpec {
        masters,
        replicas_per_master,
        ..Default::default()
    }
}

#[test]
fn total_pods_counts_masters_and_replicas() {
    assert_eq!(spec(3, 1).total_pods(), 6);
    assert_eq!(spec(3, 0).total_pods(), 3);
    assert_eq!(spec(5, 2).total_pods(), 15);
    assert_eq!(total_pods(5, 2), 15);
}

#[test]
fn cluster_safe_bound_is_one_for_three_by_one() {
    assert_eq!(spec(3, 1).safe_max_unavailable(), 1);
}

#[test]
fn cluster_safe_bound_is_zero_without_replicas() {
    // No replica means evicting any master takes its slots offline.
    assert_eq!(spec(3, 0).safe_max_unavailable(), 0);
}

#[test]
fn cluster_safe_bound_is_zero_below_three_masters() {
    // 2 masters cannot form a majority after losing one.
    assert_eq!(spec(2, 1).safe_max_unavailable(), 0);
    assert_eq!(spec(1, 1).safe_max_unavailable(), 0);
}

#[test]
fn cluster_safe_bound_capped_by_master_majority() {
    // 6 masters tolerate 2 down; the 3 replicas per shard are not the limit.
    assert_eq!(spec(6, 3).safe_max_unavailable(), 2);
}

#[test]
fn cluster_safe_bound_capped_by_shard_replicas() {
    // 9 masters would tolerate 4 down, but 1 replica per shard caps it at 1.
    assert_eq!(spec(9, 1).safe_max_unavailable(), 1);
}

#[test]
fn cluster_safe_bound_scales_with_both() {
    assert_eq!(spec(5, 2).safe_max_unavailable(), 2);
}

#[test]
fn unset_fields_have_their_defaults() {
    assert_eq!(crd::redis::default_replicas(), 1);
    assert_eq!(crd::redis::default_sentinel_replicas(), 3);
    assert_eq!(crd::redis::default_image(), "redis:8");
    assert_eq!(crd::redis::default_storage_size(), "1Gi");
    assert!(crd::redis::default_true());
    assert_eq!(crd::redis_cluster::default_masters(), 3);
    assert_eq!(crd::redis_cluster::default_replicas_per_master(), 1);
    assert_eq!(crd::redis_cluster::default_image(), "redis:8");
}

#[test]
fn the_manifest_separates_its_documents() {
    let docs = vec!["a: 1\n".to_string(), "b: 2\n".to_string()];
    assert_eq!(crd::render(&docs), "---\na: 1\n---\nb: 2\n");
    assert_eq!(crd::render(&vec![]), "");
}
