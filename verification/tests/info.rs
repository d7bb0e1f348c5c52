use redis_operator::metrics::catalogue::{redis_metrics, sentinel_metrics, status_metrics};
use redis_operator::metrics::info::{parse_kv_list, Info, KeyspaceDb, SentinelMaster};

const REPLICA: &str = "\
# Server\r
redis_version:8.10.0\r
redis_mode:standalone\r
process_id:1\r
uptime_in_seconds:864211\r
lru_clock:1234567\r
listener0:name=tcp,bind=*,bind=-::*,port=6379\r
\r
# Clients\r
connected_clients:8\r
maxclients:10000\r
blocked_clients:0\r
\r
# Memory\r
used_memory:274387912\r
used_memory_human:261.68M\r
used_memory_rss:301989888\r
used_memory_peak:280000000\r
maxmemory:751619276\r
maxmemory_policy:noeviction\r
mem_fragmentation_ratio:1.10\r
\r
# Persistence\r
loading:0\r
rdb_changes_since_last_save:12\r
rdb_bgsave_in_progress:0\r
rdb_last_save_time:1730000000\r
rdb_last_bgsave_status:ok\r
aof_enabled:1\r
aof_rewrite_in_progress:0\r
aof_last_bgrewrite_status:ok\r
aof_last_write_status:ok\r
aof_current_size:123456\r
\r
# Threads\r
io_thread_0:clients=8,reads=10,writes=10\r
\r
# Stats\r
total_connections_received:1000\r
total_commands_processed:987654\r
instantaneous_ops_per_sec:42\r
total_net_input_bytes:111\r
total_net_output_bytes:222\r
rejected_connections:0\r
sync_full:1\r
sync_partial_ok:2\r
sync_partial_err:0\r
expired_keys:5\r
evicted_keys:0\r
keyspace_hits:100\r
keyspace_misses:7\r
latest_fork_usec:900\r
total_error_replies:3\r
\r
# Replication\r
role:slave\r
master_host:cache-0.cache.default.svc.cluster.local\r
master_port:6379\r
master_link_status:up\r
master_last_io_seconds_ago:1\r
master_sync_in_progress:0\r
slave_repl_offset:5555\r
connected_slaves:0\r
master_repl_offset:5555\r
repl_backlog_size:1048576\r
repl_backlog_histlen:4096\r
\r
# CPU\r
used_cpu_sys:3482.498639\r
used_cpu_user:4021.113400\r
used_cpu_sys_children:12.5\r
used_cpu_user_children:40.25\r
\r
# Errorstats\r
errorstat_ERR:count=3\r
\r
# Cluster\r
cluster_enabled:0\r
\r
# Keyspace\r
db0:keys=110868,expires=109950,avg_ttl=0,subexpiry=0\r
\r
# Keysizes\r
db0_distrib_strings_sizes:1=10,2=20\r
";

const SENTINEL: &str = "\
# Server\r
redis_version:8.10.0\r
redis_mode:sentinel\r
uptime_in_seconds:100\r
\r
# Clients\r
connected_clients:4\r
\r
# Stats\r
total_connections_received:17\r
total_commands_processed:4242\r
\r
# Sentinel\r
sentinel_masters:1\r
sentinel_tilt:0\r
sentinel_tilt_since_seconds:-1\r
sentinel_running_scripts:0\r
sentinel_scripts_queue_length:0\r
sentinel_simulate_failure_flags:0\r
master0:name=mymaster,status=ok,address=10.244.1.37:6379,slaves=2,sentinels=3\r
";

fn number(info: &Info, key: &str) -> Option<f64> {
    info.num(key).map(|t| t.parse().unwrap())
}

#[test]
fn parse_skips_section_headers_and_blank_lines() {
    let info = Info::parse(REPLICA);
    assert_eq!(info.get("Server"), None);
    assert_eq!(info.get(""), None);
    assert_eq!(info.get("Replication"), None);
}

#[test]
fn parse_reads_numeric_and_string_fields() {
    let info = Info::parse(REPLICA);
    assert_eq!(number(&info, "used_memory"), Some(274387912.0));
    assert_eq!(number(&info, "used_cpu_sys"), Some(3482.498639));
    assert_eq!(info.get("redis_version"), Some("8.10.0"));
    assert_eq!(info.get("role"), Some("slave"));
}

#[test]
fn parse_keeps_values_containing_colons() {
    // `listener0:name=tcp,bind=*,bind=-::*,port=6379` splits on the FIRST
    // colon only.
    let info = Info::parse(REPLICA);
    assert_eq!(
        info.get("listener0"),
        Some("name=tcp,bind=*,bind=-::*,port=6379")
    );
}

#[test]
fn the_last_line_with_a_name_counts() {
    let info = Info::parse("a:1\nno field here\na:2\n  b : 3 \n");
    assert_eq!(info.get("a"), Some("2"));
    assert_eq!(info.get("b "), Some(" 3"));
    assert_eq!(info.num("b "), Some("3"));
}

#[test]
fn num_returns_none_for_non_numeric_fields() {
    let info = Info::parse(REPLICA);
    assert_eq!(number(&info, "maxmemory_policy"), None);
    assert_eq!(number(&info, "used_memory_human"), None);
    assert_eq!(number(&info, "nonexistent_field"), None);
}

#[test]
fn num_takes_every_spelling_of_a_number_and_no_word() {
    for (text, ok) in [
        ("1", true),
        ("-1.5", true),
        ("+.5", true),
        ("5.", true),
        ("1e3", true),
        ("1E-3", true),
        (".", false),
        ("e5", false),
        ("1e", false),
        ("1e+", false),
        ("1.2.3", false),
        ("0x10", false),
        ("1_000", false),
        ("infinit", false),
        ("--1", false),
        ("1 2", false),
        ("", false),
    ] {
        let info = Info::parse(&format!("x:{text}\n"));
        assert_eq!(info.num("x").is_some(), ok, "{text:?}");
        assert_eq!(text.parse::<f64>().is_ok(), ok, "{text:?}");
    }
    for word in ["inf", "-Infinity", "infinity", "NaN", "+nan", "none"] {
        let info = Info::parse(&format!("used_memory:{word}\n"));
        assert_eq!(info.num("used_memory"), None, "{word:?}");
    }
}

#[test]
fn is_compares_status_words() {
    let info = Info::parse(REPLICA);
    assert_eq!(info.is("master_link_status", "up"), Some(true));
    assert_eq!(info.is("rdb_last_bgsave_status", "ok"), Some(true));
    // Absent on a master, and absence must stay distinguishable from false.
    assert_eq!(Info::default().is("master_link_status", "up"), None);
}

#[test]
fn keyspace_extracts_keys_and_expires_per_db() {
    let dbs = Info::parse(REPLICA).keyspace();
    assert_eq!(
        dbs,
        vec![KeyspaceDb {
            db: "0".into(),
            keys: 110868,
            expires: 109950
        }]
    );
}

#[test]
fn keyspace_ignores_the_keysizes_section() {
    // `db0_distrib_strings_sizes` shares the `db` prefix but is a histogram
    // of unbounded width — exporting it would be a cardinality bomb.
    let dbs = Info::parse(REPLICA).keyspace();
    assert_eq!(dbs.len(), 1);
}

#[test]
fn keyspace_is_empty_for_a_sentinel() {
    assert!(Info::parse(SENTINEL).keyspace().is_empty());
}

#[test]
fn keyspace_comes_in_the_order_of_names() {
    let dbs = Info::parse("db2:keys=2\ndb10:keys=10,expires=x\ndb:keys=1\ndb1:keys=1,keys=7\n")
        .keyspace();
    let got: Vec<(&str, u64, u64)> = dbs
        .iter()
        .map(|d| (d.db.as_str(), d.keys, d.expires))
        .collect();
    assert_eq!(got, [("1", 7, 0), ("10", 10, 0), ("2", 2, 0)]);
}

#[test]
fn sentinel_masters_extracts_status_and_counts() {
    let masters = Info::parse(SENTINEL).sentinel_masters();
    assert_eq!(
        masters,
        vec![SentinelMaster {
            name: "mymaster".into(),
            ok: true,
            slaves: 2,
            sentinels: 3,
        }]
    );
}

#[test]
fn sentinel_masters_ignores_replication_fields_sharing_the_prefix() {
    // `master_host`, `master_link_status`, `master_repl_offset` all start
    // with `master` on a plain replica.
    assert!(Info::parse(REPLICA).sentinel_masters().is_empty());
}

#[test]
fn sentinel_masters_need_a_name() {
    let info = Info::parse("master0:status=ok\nmaster1:name=m,status=sdown\n");
    assert_eq!(
        info.sentinel_masters(),
        vec![SentinelMaster {
            name: "m".into(),
            ok: false,
            slaves: 0,
            sentinels: 0,
        }]
    );
}

#[test]
fn lists_are_split_at_the_first_equals_sign() {
    assert_eq!(
        parse_kv_list("a=1,b,options=[x=y],c="),
        vec![("a", "1"), ("options", "[x=y]"), ("c", "")]
    );
}

#[test]
fn catalogue_names_are_valid_and_unique() {
    let mut seen = std::collections::HashSet::new();
    let mut names: Vec<&str> = redis_metrics().iter().map(|m| m.name).collect();
    names.extend(sentinel_metrics().iter().map(|m| m.name));
    names.extend(status_metrics().iter().map(|m| m.name));
    for name in names {
        assert!(
            name.starts_with("redis_")
                && name
                    .chars()
                    .all(|c| c.is_ascii_lowercase() || c.is_ascii_digit() || c == '_'),
            "invalid metric name {name:?}",
        );
        assert!(seen.insert(name), "duplicate metric name {name:?}");
    }
}

#[test]
fn catalogue_counter_names_omit_the_total_suffix() {
    // prometheus-client appends `_total` from the metric type; spelling it
    // here too would produce `..._total_total`.
    for m in redis_metrics().iter().chain(sentinel_metrics().iter()) {
        assert!(
            !m.name.ends_with("_total"),
            "{:?} must not spell its own _total suffix",
            m.name
        );
    }
}

#[test]
fn catalogue_excludes_human_readable_and_unbounded_fields() {
    for m in redis_metrics().iter().chain(sentinel_metrics().iter()) {
        assert!(!m.key.ends_with("_human"), "{:?} is a display string", m.key);
        assert!(!m.key.starts_with("errorstat_"), "{:?} is unbounded", m.key);
        assert!(!m.key.contains("_distrib_"), "{:?} is unbounded", m.key);
        assert!(!m.key.starts_with("io_thread_"), "{:?} is unbounded", m.key);
    }
}

#[test]
fn every_catalogued_field_resolves_against_a_real_reply() {
    // Guards against typos in the catalogue: each entry must match at least
    // one of the two fixtures, or it is exporting nothing.
    let replica = Info::parse(REPLICA);
    let sentinel = Info::parse(SENTINEL);
    for m in redis_metrics() {
        assert!(
            replica.num(m.key).is_some() || sentinel.num(m.key).is_some(),
            "no fixture reports {:?}",
            m.key
        );
    }
    for m in sentinel_metrics() {
        assert!(
            sentinel.num(m.key).is_some(),
            "sentinel fixture lacks {:?}",
            m.key
        );
    }
    for m in status_metrics() {
        assert!(
            replica.get(m.key).is_some(),
            "replica fixture lacks {:?}",
            m.key
        );
    }
}
