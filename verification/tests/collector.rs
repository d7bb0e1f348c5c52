use std::sync::Arc;

use prometheus_client::collector::Collector;
use prometheus_client::encoding::DescriptorEncoder;
use prometheus_client::metrics::MetricType;
use prometheus_client::registry::Registry;
use redis_operator::controller::FIELD_MANAGER;
use redis_operator::metrics::collector::{
    encode, poll_config, scraped, settle_poll, target_from_pod, FamilyKind, Instance,
    InstanceLabels, PodFacts, SampleValue, Snapshot, MAX_KEYSPACE_DBS,
};
use redis_operator::metrics::info::Info;
use redis_operator::metrics::result_label;
use redis_operator::metrics::server::readiness;
use redis_operator::str_map::StrMap;

const REPLICA_INFO: &str = "\
# Server\r
redis_version:8.10.0\r
redis_mode:standalone\r
process_id:1\r
uptime_in_seconds:864211\r
lru_clock:1234567\r
listener0:name=tcp,bind=*,bind=-::*,port=6379\r
\r
# Clients\r
connected_clients:8\r
maxclients:10000\r
blocked_clients:0\r
\r
# Memory\r
used_memory:274387912\r
used_memory_human:261.68M\r
used_memory_rss:301989888\r
used_memory_peak:280000000\r
maxmemory:751619276\r
maxmemory_policy:noeviction\r
mem_fragmentation_ratio:1.10\r
\r
# Persistence\r
loading:0\r
rdb_changes_since_last_save:12\r
rdb_bgsave_in_progress:0\r
rdb_last_save_time:1730000000\r
rdb_last_bgsave_status:ok\r
aof_enabled:1\r
aof_rewrite_in_progress:0\r
aof_last_bgrewrite_status:ok\r
aof_last_write_status:ok\r
aof_current_size:123456\r
\r
# Threads\r
io_thread_0:clients=8,reads=10,writes=10\r
\r
# Stats\r
total_connections_received:1000\r
total_commands_processed:987654\r
instantaneous_ops_per_sec:42\r
total_net_input_bytes:111\r
total_net_output_bytes:222\r
rejected_connections:0\r
sync_full:1\r
sync_partial_ok:2\r
sync_partial_err:0\r
expired_keys:5\r
evicted_keys:0\r
keyspace_hits:100\r
keyspace_misses:7\r
latest_fork_usec:900\r
total_error_replies:3\r
\r
# Replication\r
role:slave\r
master_host:cache-0.cache.default.svc.cluster.local\r
master_port:6379\r
master_link_status:up\r
master_last_io_seconds_ago:1\r
master_sync_in_progress:0\r
slave_repl_offset:5555\r
connected_slaves:0\r
master_repl_offset:5555\r
repl_backlog_size:1048576\r
repl_backlog_histlen:4096\r
\r
# CPU\r
used_cpu_sys:3482.498639\r
used_cpu_user:4021.113400\r
used_cpu_sys_children:12.5\r
used_cpu_user_children:40.25\r
\r
# Errorstats\r
errorstat_ERR:count=3\r
\r
# Cluster\r
cluster_enabled:0\r
\r
# Keyspace\r
db0:keys=110868,expires=109950,avg_ttl=0,subexpiry=0\r
\r
# Keysizes\r
db0_distrib_strings_sizes:1=10,2=20\r
";

const SENTINEL_INFO: &str = "\
# Server\r
redis_version:8.10.0\r
redis_mode:sentinel\r
uptime_in_seconds:100\r
\r
# Clients\r
connected_clients:4\r
\r
# Stats\r
total_connections_received:17\r
total_commands_processed:4242\r
\r
# Sentinel\r
sentinel_masters:1\r
sentinel_tilt:0\r
sentinel_tilt_since_seconds:-1\r
sentinel_running_scripts:0\r
sentinel_scripts_queue_length:0\r
sentinel_simulate_failure_flags:0\r
master0:name=mymaster,status=ok,address=10.244.1.37:6379,slaves=2,sentinels=3\r
";

fn labels(app: &str, leave_out: &str) -> StrMap<String> {
    let mut m = StrMap::new();
    for (k, v) in [
        ("app.kubernetes.io/name", app),
        ("app.kubernetes.io/instance", "cache"),
        ("app.kubernetes.io/managed-by", FIELD_MANAGER),
    ] {
        if k != leave_out {
            m.insert(k.to_string(), v.to_string());
        }
    }
    m
}

fn pod(name: &str, app: &str, ip: Option<&str>, phase: &str) -> PodFacts {
    PodFacts {
        name: name.to_string(),
        namespace: Some("default".to_string()),
        terminating: false,
        phase: Some(phase.to_string()),
        ip: ip.map(String::from),
        labels: labels(app, ""),
    }
}

fn instance(pod_name: &str, kind: &'static str, info: Option<&str>) -> Instance {
    Instance {
        labels: InstanceLabels {
            namespace: "default".to_string(),
            pod: pod_name.to_string(),
            instance_name: "cache".to_string(),
            kind,
        },
        up: info.is_some(),
        scrape_nanos: 250_000_000,
        info: info.map(Info::parse),
    }
}

#[derive(Debug)]
struct Exposition {
    snapshot: Arc<Snapshot>,
}

impl Collector for Exposition {
    fn encode(&self, mut encoder: DescriptorEncoder<'_>) -> Result<(), std::fmt::Error> {
        for family in encode(&self.snapshot) {
            let kind = match family.kind {
                FamilyKind::Gauge => MetricType::Gauge,
                FamilyKind::Counter => MetricType::Counter,
                FamilyKind::Info => MetricType::Info,
            };
            let mut m = encoder.encode_descriptor(family.name, family.help, None, kind)?;
            for sample in &family.samples {
                let mut series = m.encode_family(&sample.labels)?;
                match &sample.value {
                    SampleValue::Integer(n) => series.encode_gauge(n)?,
                    SampleValue::Nanoseconds(n) => {
                        series.encode_gauge(&std::time::Duration::from_nanos(*n).as_secs_f64())?
                    }
                    SampleValue::Number(t) => {
                        let n: f64 = t.parse().unwrap();
                        match family.kind {
                            FamilyKind::Counter => {
                                series.encode_counter::<Vec<(String, String)>, f64, f64>(&n, None)?
                            }
                            _ => series.encode_gauge(&n)?,
                        }
                    }
                    SampleValue::Details(d) => series.encode_info(d)?,
                }
            }
        }
        Ok(())
    }
}

/// Encode a snapshot the way `/metrics` would, so the assertions below are
/// against the bytes Prometheus actually receives.
fn render(instances: Vec<Instance>) -> String {
    let mut registry = Registry::default();
    registry.register_collector(Box::new(Exposition {
        snapshot: Arc::new(Snapshot { instances }),
    }));
    let mut out = String::new();
    prometheus_client::encoding::text::encode(&mut out, &registry).expect("encode");
    out
}

#[test]
fn target_resolves_kind_and_port_from_the_app_name_label() {
    let t = target_from_pod(&pod("cache-0", "redis", Some("10.1.2.3"), "Running")).unwrap();
    assert_eq!(format!("{}:{}", t.ip, t.port), "10.1.2.3:6379");
    assert_eq!(t.labels.kind, "redis");
    assert_eq!(t.labels.instance_name, "cache");
    assert_eq!(t.labels.namespace, "default");

    let t = target_from_pod(&pod("c-0", "redis-cluster", Some("10.1.2.4"), "Running")).unwrap();
    assert_eq!(t.port, 6379);
    assert_eq!(t.labels.kind, "rediscluster");

    let t = target_from_pod(&pod("s-0", "redis-sentinel", Some("10.1.2.5"), "Running")).unwrap();
    assert_eq!(t.port, 26379);
    assert_eq!(t.labels.kind, "sentinel");
}

#[test]
fn target_skips_pods_without_an_ip() {
    assert!(target_from_pod(&pod("cache-0", "redis", None, "Running")).is_none());
}

#[test]
fn target_skips_pods_that_are_not_running() {
    assert!(target_from_pod(&pod("cache-0", "redis", Some("10.1.2.3"), "Pending")).is_none());
}

#[test]
fn target_skips_terminating_pods() {
    let mut p = pod("cache-0", "redis", Some("10.1.2.3"), "Running");
    p.terminating = true;
    assert!(target_from_pod(&p).is_none());
}

#[test]
fn target_skips_unmanaged_and_unlabelled_pods() {
    let mut p = pod("other-0", "postgres", Some("10.1.2.3"), "Running");
    assert!(target_from_pod(&p).is_none());

    p = pod("cache-0", "redis", Some("10.1.2.3"), "Running");
    p.labels = labels("redis", "app.kubernetes.io/instance");
    assert!(target_from_pod(&p).is_none());

    p = pod("cache-0", "redis", Some("10.1.2.3"), "Running");
    p.labels = labels("redis", "app.kubernetes.io/managed-by");
    assert!(target_from_pod(&p).is_none());
}

#[test]
fn target_skips_pods_without_a_namespace() {
    let mut p = pod("cache-0", "redis", Some("10.1.2.3"), "Running");
    p.namespace = None;
    assert!(target_from_pod(&p).is_none());
}

#[test]
fn encodes_allowlisted_fields_from_a_real_reply() {
    let out = render(vec![instance("cache-0", "redis", Some(REPLICA_INFO))]);
    let labels = r#"{namespace="default",pod="cache-0",instance_name="cache",kind="redis"}"#;
    assert!(out.contains(&format!("redis_up{labels} 1")), "{out}");
    assert!(
        out.contains(&format!("redis_memory_used_bytes{labels} 274387912.0")),
        "{out}"
    );
    assert!(
        out.contains(&format!("redis_connected_clients{labels} 8.0")),
        "{out}"
    );
    assert!(
        out.contains(&format!("redis_scrape_duration_seconds{labels} 0.25")),
        "{out}"
    );
}

#[test]
fn counters_are_typed_as_counters_and_get_the_total_suffix() {
    let out = render(vec![instance("cache-0", "redis", Some(REPLICA_INFO))]);
    assert!(
        out.contains("# TYPE redis_commands_processed counter"),
        "{out}"
    );
    assert!(out.contains("redis_commands_processed_total{"), "{out}");
    // And gauges must not acquire one.
    assert!(!out.contains("redis_connected_clients_total"), "{out}");
}

#[test]
fn skips_fields_outside_the_allowlist() {
    let out = render(vec![instance("cache-0", "redis", Some(REPLICA_INFO))]);
    for banned in [
        "errorstat",
        "db0_distrib",
        "io_thread",
        "used_memory_human",
        "process_id",
        "lru_clock",
    ] {
        assert!(!out.contains(banned), "{banned} leaked into the exposition");
    }
}

#[test]
fn maps_status_words_to_one_and_zero() {
    let out = render(vec![instance("cache-0", "redis", Some(REPLICA_INFO))]);
    let labels = r#"{namespace="default",pod="cache-0",instance_name="cache",kind="redis"}"#;
    assert!(out.contains(&format!("redis_master_link_up{labels} 1")), "{out}");
    assert!(
        out.contains(&format!("redis_rdb_last_bgsave_success{labels} 1")),
        "{out}"
    );

    let broken = REPLICA_INFO.replace("rdb_last_bgsave_status:ok", "rdb_last_bgsave_status:err");
    let out = render(vec![instance("cache-0", "redis", Some(&broken))]);
    assert!(
        out.contains(&format!("redis_rdb_last_bgsave_success{labels} 0")),
        "{out}"
    );
}

#[test]
fn normalizes_the_slave_role_to_replica() {
    let out = render(vec![instance("cache-0", "redis", Some(REPLICA_INFO))]);
    assert!(out.contains(r#"role="replica""#), "{out}");
    assert!(!out.contains(r#"role="slave""#), "{out}");
    assert!(out.contains(r#"redis_version="8.10.0""#), "{out}");
}

#[test]
fn exports_keyspace_per_database() {
    let out = render(vec![instance("cache-0", "redis", Some(REPLICA_INFO))]);
    assert!(out.contains(r#"db="0"} 110868"#), "{out}");
    assert!(out.contains("redis_db_keys_expiring{"), "{out}");
}

#[test]
fn exports_sentinel_sections() {
    let out = render(vec![instance(
        "cache-sentinel-0",
        "sentinel",
        Some(SENTINEL_INFO),
    )]);
    assert!(out.contains("redis_sentinel_masters{"), "{out}");
    assert!(out.contains("redis_sentinel_tilt{"), "{out}");
    assert!(out.contains(r#"master="mymaster""#), "{out}");
    assert!(out.contains("redis_sentinel_master_sentinels{"), "{out}");
    assert!(out.contains(r#"master="mymaster"} 3"#), "{out}");
}

#[test]
fn omits_fields_the_instance_did_not_report() {
    // A sentinel reports no Memory section, so it must produce no memory
    // series rather than a zero.
    let out = render(vec![instance(
        "cache-sentinel-0",
        "sentinel",
        Some(SENTINEL_INFO),
    )]);
    assert!(!out.contains("redis_memory_used_bytes"), "{out}");
    assert!(!out.contains("redis_master_link_up"), "{out}");
    // But the sections it does share with a server are still exported.
    assert!(out.contains("redis_connected_clients{"), "{out}");
    assert!(out.contains("redis_commands_processed_total{"), "{out}");
}

#[test]
fn a_number_that_turns_into_a_word_drops_one_series() {
    let odd = REPLICA_INFO.replace("used_memory:274387912", "used_memory:infinity");
    let out = render(vec![instance("cache-0", "redis", Some(&odd))]);
    assert!(!out.contains("redis_memory_used_bytes"), "{out}");
    assert!(out.contains("redis_connected_clients{"), "{out}");
}

#[test]
fn an_unreachable_instance_reports_only_up_zero() {
    let out = render(vec![instance("cache-0", "redis", None)]);
    let labels = r#"{namespace="default",pod="cache-0",instance_name="cache",kind="redis"}"#;
    assert!(out.contains(&format!("redis_up{labels} 0")), "{out}");
    assert!(out.contains("redis_scrape_duration_seconds{"), "{out}");
    assert!(!out.contains("redis_memory_used_bytes"), "{out}");
    assert!(!out.contains("redis_instance_info"), "{out}");
}

#[test]
fn a_pod_absent_from_the_new_snapshot_is_no_longer_exported() {
    let both = render(vec![
        instance("cache-0", "redis", Some(REPLICA_INFO)),
        instance("cache-1", "redis", Some(REPLICA_INFO)),
    ]);
    assert!(both.contains("cache-1"), "{both}");

    let one = render(vec![instance("cache-0", "redis", Some(REPLICA_INFO))]);
    assert!(one.contains("cache-0"), "{one}");
    assert!(!one.contains("cache-1"), "{one}");
}

#[test]
fn an_empty_snapshot_encodes_cleanly() {
    let out = render(vec![]);
    assert!(!out.contains("redis_up"), "{out}");
}

#[test]
fn no_more_than_a_fixed_number_of_databases_is_exported() {
    let mut reply = String::new();
    for i in 0..40 {
        reply.push_str(&format!("db{i}:keys={i},expires=0\n"));
    }
    let families = encode(&Snapshot {
        instances: vec![instance("cache-0", "redis", Some(&reply))],
    });
    let dbs = families.iter().find(|f| f.name == "redis_db_keys").unwrap();
    assert_eq!(dbs.samples.len(), MAX_KEYSPACE_DBS);
    assert_eq!(dbs.samples[0].value, SampleValue::Integer(0));
    // In the order of names: db0, db1, db10, ...
    assert_eq!(dbs.samples[2].value, SampleValue::Integer(10));
}

#[test]
fn a_round_of_scrapes_is_sorted_and_counted() {
    let mut other = instance("a-0", "redis", None);
    other.labels.namespace = "zone".to_string();
    let r = settle_poll(vec![
        other,
        instance("cache-1", "redis", Some("role:master")),
        instance("cache-0", "redis", None),
    ]);
    assert_eq!(r.targets, 3);
    assert_eq!(r.failures, 2);
    let pods: Vec<&str> = r
        .snapshot
        .instances
        .iter()
        .map(|i| i.labels.pod.as_str())
        .collect();
    assert_eq!(pods, ["cache-0", "cache-1", "a-0"]);
    assert_eq!(r.snapshot.instances[1].role(), Some("master"));
}

#[test]
fn a_scrape_is_up_where_there_is_a_reply() {
    let base = instance("cache-0", "redis", None).labels;
    let i = scraped(base.clone(), 5, Some("role:slave\n"));
    assert!(i.up);
    assert_eq!(i.scrape_nanos, 5);
    assert_eq!(i.role(), Some("replica"));
    let i = scraped(base, 5, None);
    assert!(!i.up);
    assert!(i.info.is_none());
}

#[test]
fn at_least_one_pod_is_polled_at_a_time() {
    assert_eq!(poll_config(15, 2, 0).concurrency, 1);
    let c = poll_config(15, 2, 16);
    assert_eq!(
        (c.interval_seconds, c.scrape_timeout_seconds, c.concurrency),
        (15, 2, 16)
    );
}

#[test]
fn readiness_flips_only_after_a_poll() {
    assert_eq!(readiness(false), (503, "waiting for the first pod poll"));
    assert_eq!(readiness(true), (200, "ok"));
    assert_eq!(result_label(true), "success");
    assert_eq!(result_label(false), "error");
}
