//! The fields of `INFO` that are exported, and under which names.
//!
//! The list is explicit. A reply holds some 200 numbers, and families of them
//! have no bound: size distributions per database, error counts per error,
//! threads. Exporting whatever is a number would let a workload grow the number
//! of series at will.

use vstd::prelude::*;

verus! {

/// Whether a value goes up and down, or only up.
#[derive(Debug, Clone, Copy, PartialEq, Eq)]
pub enum Kind {
    Gauge,
    Counter,
}

/// A field that is exported as a number. The name has no `_total` behind it, also
/// where it is a counter: the exposition adds that.
#[derive(Debug, Clone, Copy)]
pub struct InfoMetric {
    pub key: &'static str,
    pub name: &'static str,
    pub help: &'static str,
    pub kind: Kind,
}

/// A field that holds a word, exported as 1 where the word is `ok_value` and as 0
/// where it is another.
#[derive(Debug, Clone, Copy)]
pub struct StatusMetric {
    pub key: &'static str,
    pub name: &'static str,
    pub help: &'static str,
    pub ok_value: &'static str,
}

pub ghost struct MetricView {
    pub key: Seq<char>,
    pub name: Seq<char>,
    pub help: Seq<char>,
    pub kind: Kind,
}

pub ghost struct StatusView {
    pub key: Seq<char>,
    pub name: Seq<char>,
    pub help: Seq<char>,
    pub ok_value: Seq<char>,
}

impl View for InfoMetric {
    type V = MetricView;

    open spec fn view(&self) -> MetricView {
        MetricView { key: self.key@, name: self.name@, help: self.help@, kind: self.kind }
    }
}

impl View for StatusMetric {
    type V = StatusView;

    open spec fn view(&self) -> StatusView {
        StatusView {
            key: self.key@,
            name: self.name@,
            help: self.help@,
            ok_value: self.ok_value@,
        }
    }
}

/// What a list of metrics holds.
pub open spec fn metrics_view(v: Seq<InfoMetric>) -> Seq<MetricView> {
    v.map_values(|m: InfoMetric| m@)
}

/// What a list of status metrics holds.
pub open spec fn statuses_view(v: Seq<StatusMetric>) -> Seq<StatusView> {
    v.map_values(|m: StatusMetric| m@)
}

/// A field that goes up and down.
pub open spec fn gauge_view(key: Seq<char>, name: Seq<char>, help: Seq<char>) -> MetricView {
    MetricView { key, name, help, kind: Kind::Gauge }
}

/// A field that only goes up.
pub open spec fn counter_view(key: Seq<char>, name: Seq<char>, help: Seq<char>) -> MetricView {
    MetricView { key, name, help, kind: Kind::Counter }
}

/// A field that goes up and down.
pub fn gauge(key: &'static str, name: &'static str, help: &'static str) -> (m: InfoMetric)
    ensures
        m@ == gauge_view(key@, name@, help@),
{
    InfoMetric { key, name, help, kind: Kind::Gauge }
}

/// A field that only goes up.
pub fn counter(key: &'static str, name: &'static str, help: &'static str) -> (m: InfoMetric)
    ensures
        m@ == counter_view(key@, name@, help@),
{
    InfoMetric { key, name, help, kind: Kind::Counter }
}

/// The fields that are exported of every instance. One that an instance does not
/// report is not exported of it.
pub open spec fn redis_catalogue() -> Seq<MetricView> {
    seq![
        gauge_view("uptime_in_seconds"@, "redis_uptime_seconds"@, "Seconds since the server started"@),
        gauge_view("connected_clients"@, "redis_connected_clients"@, "Client connections, excluding replicas"@),
        gauge_view("blocked_clients"@, "redis_blocked_clients"@, "Clients blocked in a blocking call"@),
        gauge_view("maxclients"@, "redis_maxclients"@, "Configured client connection limit"@),
        gauge_view("used_memory"@, "redis_memory_used_bytes"@, "Bytes allocated by the allocator"@),
        gauge_view("used_memory_rss"@, "redis_memory_rss_bytes"@, "Bytes resident in RAM as seen by the OS"@),
        gauge_view("used_memory_peak"@, "redis_memory_peak_bytes"@, "Peak bytes allocated"@),
        gauge_view("maxmemory"@, "redis_memory_max_bytes"@, "Configured maxmemory limit, 0 when unlimited"@),
        gauge_view("mem_fragmentation_ratio"@, "redis_memory_fragmentation_ratio"@, "RSS over allocated memory"@),
        gauge_view("loading"@, "redis_loading"@, "1 while loading a dataset from disk"@),
        gauge_view("rdb_changes_since_last_save"@, "redis_rdb_changes_since_last_save"@, "Writes since the last successful save"@),
        gauge_view("rdb_last_save_time"@, "redis_rdb_last_save_timestamp_seconds"@, "Unix time of the last successful save"@),
        gauge_view("rdb_bgsave_in_progress"@, "redis_rdb_bgsave_in_progress"@, "1 while a BGSAVE is running"@),
        gauge_view("aof_enabled"@, "redis_aof_enabled"@, "1 when append-only logging is on"@),
        gauge_view("aof_rewrite_in_progress"@, "redis_aof_rewrite_in_progress"@, "1 while an AOF rewrite is running"@),
        gauge_view("aof_current_size"@, "redis_aof_current_size_bytes"@, "Current size of the append-only file"@),
        counter_view("total_connections_received"@, "redis_connections_received"@, "Connections accepted"@),
        counter_view("total_commands_processed"@, "redis_commands_processed"@, "Commands processed"@),
        counter_view("total_net_input_bytes"@, "redis_net_input_bytes"@, "Bytes read from the network"@),
        counter_view("total_net_output_bytes"@, "redis_net_output_bytes"@, "Bytes written to the network"@),
        counter_view("rejected_connections"@, "redis_rejected_connections"@, "Connections rejected at the maxclients limit"@),
        counter_view("expired_keys"@, "redis_expired_keys"@, "Keys removed because they expired"@),
        counter_view("evicted_keys"@, "redis_evicted_keys"@, "Keys evicted under the maxmemory policy"@),
        counter_view("keyspace_hits"@, "redis_keyspace_hits"@, "Lookups of keys that existed"@),
        counter_view("keyspace_misses"@, "redis_keyspace_misses"@, "Lookups of keys that did not exist"@),
        counter_view("total_error_replies"@, "redis_error_replies"@, "Error replies returned"@),
        counter_view("sync_full"@, "redis_sync_full"@, "Full replication syncs served"@),
        counter_view("sync_partial_ok"@, "redis_sync_partial_ok"@, "Partial resyncs served"@),
        counter_view("sync_partial_err"@, "redis_sync_partial_err"@, "Partial resyncs that had to fall back to a full sync"@),
        gauge_view("instantaneous_ops_per_sec"@, "redis_instantaneous_ops_per_sec"@, "Commands per second, as sampled by Redis"@),
        gauge_view("latest_fork_usec"@, "redis_latest_fork_usec"@, "Microseconds the most recent fork blocked the server"@),
        gauge_view("connected_slaves"@, "redis_connected_slaves"@, "Replicas currently connected to this instance"@),
        gauge_view("master_repl_offset"@, "redis_master_repl_offset"@, "Replication offset of this instance"@),
        gauge_view("slave_repl_offset"@, "redis_slave_repl_offset"@, "Replication offset this replica has processed"@),
        gauge_view("master_last_io_seconds_ago"@, "redis_master_last_io_seconds_ago"@, "Seconds since the last interaction with the master"@),
        gauge_view("master_sync_in_progress"@, "redis_master_sync_in_progress"@, "1 while this replica is syncing from its master"@),
        gauge_view("repl_backlog_size"@, "redis_repl_backlog_size_bytes"@, "Configured size of the replication backlog"@),
        gauge_view("repl_backlog_histlen"@, "redis_repl_backlog_histlen_bytes"@, "Bytes currently held in the replication backlog"@),
        counter_view("used_cpu_sys"@, "redis_cpu_sys_seconds"@, "System CPU consumed by the server"@),
        counter_view("used_cpu_user"@, "redis_cpu_user_seconds"@, "User CPU consumed by the server"@),
        counter_view("used_cpu_sys_children"@, "redis_cpu_sys_children_seconds"@, "System CPU consumed by background children"@),
        counter_view("used_cpu_user_children"@, "redis_cpu_user_children_seconds"@, "User CPU consumed by background children"@),
        gauge_view("cluster_enabled"@, "redis_cluster_enabled"@, "1 when the instance runs in cluster mode"@),
    ]
}

/// The fields that are exported of every instance.
pub fn redis_metrics() -> (v: Vec<InfoMetric>)
    ensures
        metrics_view(v@) == redis_catalogue(),
{
    let v: Vec<InfoMetric> = vec![
        gauge("uptime_in_seconds", "redis_uptime_seconds", "Seconds since the server started"),
        gauge("connected_clients", "redis_connected_clients", "Client connections, excluding replicas"),
        gauge("blocked_clients", "redis_blocked_clients", "Clients blocked in a blocking call"),
        gauge("maxclients", "redis_maxclients", "Configured client connection limit"),
        gauge("used_memory", "redis_memory_used_bytes", "Bytes allocated by the allocator"),
        gauge("used_memory_rss", "redis_memory_rss_bytes", "Bytes resident in RAM as seen by the OS"),
        gauge("used_memory_peak", "redis_memory_peak_bytes", "Peak bytes allocated"),
        gauge("maxmemory", "redis_memory_max_bytes", "Configured maxmemory limit, 0 when unlimited"),
        gauge("mem_fragmentation_ratio", "redis_memory_fragmentation_ratio", "RSS over allocated memory"),
        gauge("loading", "redis_loading", "1 while loading a dataset from disk"),
        gauge("rdb_changes_since_last_save", "redis_rdb_changes_since_last_save", "Writes since the last successful save"),
        gauge("rdb_last_save_time", "redis_rdb_last_save_timestamp_seconds", "Unix time of the last successful save"),
        gauge("rdb_bgsave_in_progress", "redis_rdb_bgsave_in_progress", "1 while a BGSAVE is running"),
        gauge("aof_enabled", "redis_aof_enabled", "1 when append-only logging is on"),
        gauge("aof_rewrite_in_progress", "redis_aof_rewrite_in_progress", "1 while an AOF rewrite is running"),
        gauge("aof_current_size", "redis_aof_current_size_bytes", "Current size of the append-only file"),
        counter("total_connections_received", "redis_connections_received", "Connections accepted"),
        counter("total_commands_processed", "redis_commands_processed", "Commands processed"),
        counter("total_net_input_bytes", "redis_net_input_bytes", "Bytes read from the network"),
        counter("total_net_output_bytes", "redis_net_output_bytes", "Bytes written to the network"),
        counter("rejected_connections", "redis_rejected_connections", "Connections rejected at the maxclients limit"),
        counter("expired_keys", "redis_expired_keys", "Keys removed because they expired"),
        counter("evicted_keys", "redis_evicted_keys", "Keys evicted under the maxmemory policy"),
        counter("keyspace_hits", "redis_keyspace_hits", "Lookups of keys that existed"),
        counter("keyspace_misses", "redis_keyspace_misses", "Lookups of keys that did not exist"),
        counter("total_error_replies", "redis_error_replies", "Error replies returned"),
        counter("sync_full", "redis_sync_full", "Full replication syncs served"),
        counter("sync_partial_ok", "redis_sync_partial_ok", "Partial resyncs served"),
        counter("sync_partial_err", "redis_sync_partial_err", "Partial resyncs that had to fall back to a full sync"),
        gauge("instantaneous_ops_per_sec", "redis_instantaneous_ops_per_sec", "Commands per second, as sampled by Redis"),
        gauge("latest_fork_usec", "redis_latest_fork_usec", "Microseconds the most recent fork blocked the server"),
        gauge("connected_slaves", "redis_connected_slaves", "Replicas currently connected to this instance"),
        gauge("master_repl_offset", "redis_master_repl_offset", "Replication offset of this instance"),
        gauge("slave_repl_offset", "redis_slave_repl_offset", "Replication offset this replica has processed"),
        gauge("master_last_io_seconds_ago", "redis_master_last_io_seconds_ago", "Seconds since the last interaction with the master"),
        gauge("master_sync_in_progress", "redis_master_sync_in_progress", "1 while this replica is syncing from its master"),
        gauge("repl_backlog_size", "redis_repl_backlog_size_bytes", "Configured size of the replication backlog"),
        gauge("repl_backlog_histlen", "redis_repl_backlog_histlen_bytes", "Bytes currently held in the replication backlog"),
        counter("used_cpu_sys", "redis_cpu_sys_seconds", "System CPU consumed by the server"),
        counter("used_cpu_user", "redis_cpu_user_seconds", "User CPU consumed by the server"),
        counter("used_cpu_sys_children", "redis_cpu_sys_children_seconds", "System CPU consumed by background children"),
        counter("used_cpu_user_children", "redis_cpu_user_children_seconds", "User CPU consumed by background children"),
        gauge("cluster_enabled", "redis_cluster_enabled", "1 when the instance runs in cluster mode"),
    ];
    assert(metrics_view(v@) =~= redis_catalogue());
    v
}

/// The fields that only a sentinel reports.
pub open spec fn sentinel_catalogue() -> Seq<MetricView> {
    seq![
        gauge_view("sentinel_masters"@, "redis_sentinel_masters"@, "Masters this sentinel monitors"@),
        gauge_view("sentinel_tilt"@, "redis_sentinel_tilt"@, "1 while the sentinel is in TILT mode"@),
        gauge_view("sentinel_running_scripts"@, "redis_sentinel_running_scripts"@, "Notification scripts currently running"@),
        gauge_view("sentinel_scripts_queue_length"@, "redis_sentinel_scripts_queue_length"@, "Notification scripts waiting to run"@),
    ]
}

/// The fields that only a sentinel reports.
pub fn sentinel_metrics() -> (v: Vec<InfoMetric>)
    ensures
        metrics_view(v@) == sentinel_catalogue(),
{
    let v: Vec<InfoMetric> = vec![
        gauge("sentinel_masters", "redis_sentinel_masters", "Masters this sentinel monitors"),
        gauge("sentinel_tilt", "redis_sentinel_tilt", "1 while the sentinel is in TILT mode"),
        gauge("sentinel_running_scripts", "redis_sentinel_running_scripts", "Notification scripts currently running"),
        gauge("sentinel_scripts_queue_length", "redis_sentinel_scripts_queue_length", "Notification scripts waiting to run"),
    ];
    assert(metrics_view(v@) =~= sentinel_catalogue());
    v
}

/// The fields that say whether something is well.
pub open spec fn status_catalogue() -> Seq<StatusView> {
    seq![
        StatusView {
            key: "master_link_status"@,
            name: "redis_master_link_up"@,
            help: "1 when this replica's link to its master is up"@,
            ok_value: "up"@,
        },
        StatusView {
            key: "rdb_last_bgsave_status"@,
            name: "redis_rdb_last_bgsave_success"@,
            help: "1 when the last background save succeeded"@,
            ok_value: "ok"@,
        },
        StatusView {
            key: "aof_last_bgrewrite_status"@,
            name: "redis_aof_last_bgrewrite_success"@,
            help: "1 when the last AOF rewrite succeeded"@,
            ok_value: "ok"@,
        },
        StatusView {
            key: "aof_last_write_status"@,
            name: "redis_aof_last_write_success"@,
            help: "1 when the last AOF write succeeded"@,
            ok_value: "ok"@,
        },
    ]
}

/// The fields that say whether something is well.
pub fn status_metrics() -> (v: Vec<StatusMetric>)
    ensures
        statuses_view(v@) == status_catalogue(),
{
    let v: Vec<StatusMetric> = vec![
        StatusMetric {
            key: "master_link_status",
            name: "redis_master_link_up",
            help: "1 when this replica's link to its master is up",
            ok_value: "up",
        },
        StatusMetric {
            key: "rdb_last_bgsave_status",
            name: "redis_rdb_last_bgsave_success",
            help: "1 when the last background save succeeded",
            ok_value: "ok",
        },
        StatusMetric {
            key: "aof_last_bgrewrite_status",
            name: "redis_aof_last_bgrewrite_success",
            help: "1 when the last AOF rewrite succeeded",
            ok_value: "ok",
        },
        StatusMetric {
            key: "aof_last_write_status",
            name: "redis_aof_last_write_success",
            help: "1 when the last AOF write succeeded",
            ok_value: "ok",
        },
    ];
    assert(statuses_view(v@) =~= status_catalogue());
    v
}

/// Under which name each field is exported, and whether it is a counter: what only
/// ever grows over the life of a server is one, what is a level or a state is not.
pub proof fn lemma_field_names()
    ensures
        redis_catalogue().map_values(|m: MetricView| (m.key, m.name, m.kind is Counter)) == seq![
            ("uptime_in_seconds"@, "redis_uptime_seconds"@, false),
            ("connected_clients"@, "redis_connected_clients"@, false),
            ("blocked_clients"@, "redis_blocked_clients"@, false),
            ("maxclients"@, "redis_maxclients"@, false),
            ("used_memory"@, "redis_memory_used_bytes"@, false),
            ("used_memory_rss"@, "redis_memory_rss_bytes"@, false),
            ("used_memory_peak"@, "redis_memory_peak_bytes"@, false),
            ("maxmemory"@, "redis_memory_max_bytes"@, false),
            ("mem_fragmentation_ratio"@, "redis_memory_fragmentation_ratio"@, false),
            ("loading"@, "redis_loading"@, false),
            ("rdb_changes_since_last_save"@, "redis_rdb_changes_since_last_save"@, false),
            ("rdb_last_save_time"@, "redis_rdb_last_save_timestamp_seconds"@, false),
            ("rdb_bgsave_in_progress"@, "redis_rdb_bgsave_in_progress"@, false),
            ("aof_enabled"@, "redis_aof_enabled"@, false),
            ("aof_rewrite_in_progress"@, "redis_aof_rewrite_in_progress"@, false),
            ("aof_current_size"@, "redis_aof_current_size_bytes"@, false),
            ("total_connections_received"@, "redis_connections_received"@, true),
            ("total_commands_processed"@, "redis_commands_processed"@, true),
            ("total_net_input_bytes"@, "redis_net_input_bytes"@, true),
            ("total_net_output_bytes"@, "redis_net_output_bytes"@, true),
            ("rejected_connections"@, "redis_rejected_connections"@, true),
            ("expired_keys"@, "redis_expired_keys"@, true),
            ("evicted_keys"@, "redis_evicted_keys"@, true),
            ("keyspace_hits"@, "redis_keyspace_hits"@, true),
            ("keyspace_misses"@, "redis_keyspace_misses"@, true),
            ("total_error_replies"@, "redis_error_replies"@, true),
            ("sync_full"@, "redis_sync_full"@, true),
            ("sync_partial_ok"@, "redis_sync_partial_ok"@, true),
            ("sync_partial_err"@, "redis_sync_partial_err"@, true),
            ("instantaneous_ops_per_sec"@, "redis_instantaneous_ops_per_sec"@, false),
            ("latest_fork_usec"@, "redis_latest_fork_usec"@, false),
            ("connected_slaves"@, "redis_connected_slaves"@, false),
            ("master_repl_offset"@, "redis_master_repl_offset"@, false),
            ("slave_repl_offset"@, "redis_slave_repl_offset"@, false),
            ("master_last_io_seconds_ago"@, "redis_master_last_io_seconds_ago"@, false),
            ("master_sync_in_progress"@, "redis_master_sync_in_progress"@, false),
            ("repl_backlog_size"@, "redis_repl_backlog_size_bytes"@, false),
            ("repl_backlog_histlen"@, "redis_repl_backlog_histlen_bytes"@, false),
            ("used_cpu_sys"@, "redis_cpu_sys_seconds"@, true),
            ("used_cpu_user"@, "redis_cpu_user_seconds"@, true),
            ("used_cpu_sys_children"@, "redis_cpu_sys_children_seconds"@, true),
            ("used_cpu_user_children"@, "redis_cpu_user_children_seconds"@, true),
            ("cluster_enabled"@, "redis_cluster_enabled"@, false),
        ],
        sentinel_catalogue().map_values(|m: MetricView| (m.key, m.name, m.kind is Counter))
            == seq![
            ("sentinel_masters"@, "redis_sentinel_masters"@, false),
            ("sentinel_tilt"@, "redis_sentinel_tilt"@, false),
            ("sentinel_running_scripts"@, "redis_sentinel_running_scripts"@, false),
            ("sentinel_scripts_queue_length"@, "redis_sentinel_scripts_queue_length"@, false),
        ],
        status_catalogue().map_values(|m: StatusView| (m.key, m.name, m.ok_value)) == seq![
            ("master_link_status"@, "redis_master_link_up"@, "up"@),
            ("rdb_last_bgsave_status"@, "redis_rdb_last_bgsave_success"@, "ok"@),
            ("aof_last_bgrewrite_status"@, "redis_aof_last_bgrewrite_success"@, "ok"@),
            ("aof_last_write_status"@, "redis_aof_last_write_success"@, "ok"@),
        ],
{
    assert(redis_catalogue().map_values(|m: MetricView| (m.key, m.name, m.kind is Counter))
        =~= seq![
        ("uptime_in_seconds"@, "redis_uptime_seconds"@, false),
        ("connected_clients"@, "redis_connected_clients"@, false),
        ("blocked_clients"@, "redis_blocked_clients"@, false),
        ("maxclients"@, "redis_maxclients"@, false),
        ("used_memory"@, "redis_memory_used_bytes"@, false),
        ("used_memory_rss"@, "redis_memory_rss_bytes"@, false),
        ("used_memory_peak"@, "redis_memory_peak_bytes"@, false),
        ("maxmemory"@, "redis_memory_max_bytes"@, false),
        ("mem_fragmentation_ratio"@, "redis_memory_fragmentation_ratio"@, false),
        ("loading"@, "redis_loading"@, false),
        ("rdb_changes_since_last_save"@, "redis_rdb_changes_since_last_save"@, false),
        ("rdb_last_save_time"@, "redis_rdb_last_save_timestamp_seconds"@, false),
        ("rdb_bgsave_in_progress"@, "redis_rdb_bgsave_in_progress"@, false),
        ("aof_enabled"@, "redis_aof_enabled"@, false),
        ("aof_rewrite_in_progress"@, "redis_aof_rewrite_in_progress"@, false),
        ("aof_current_size"@, "redis_aof_current_size_bytes"@, false),
        ("total_connections_received"@, "redis_connections_received"@, true),
        ("total_commands_processed"@, "redis_commands_processed"@, true),
        ("total_net_input_bytes"@, "redis_net_input_bytes"@, true),
        ("total_net_output_bytes"@, "redis_net_output_bytes"@, true),
        ("rejected_connections"@, "redis_rejected_connections"@, true),
        ("expired_keys"@, "redis_expired_keys"@, true),
        ("evicted_keys"@, "redis_evicted_keys"@, true),
        ("keyspace_hits"@, "redis_keyspace_hits"@, true),
        ("keyspace_misses"@, "redis_keyspace_misses"@, true),
        ("total_error_replies"@, "redis_error_replies"@, true),
        ("sync_full"@, "redis_sync_full"@, true),
        ("sync_partial_ok"@, "redis_sync_partial_ok"@, true),
        ("sync_partial_err"@, "redis_sync_partial_err"@, true),
        ("instantaneous_ops_per_sec"@, "redis_instantaneous_ops_per_sec"@, false),
        ("latest_fork_usec"@, "redis_latest_fork_usec"@, false),
        ("connected_slaves"@, "redis_connected_slaves"@, false),
        ("master_repl_offset"@, "redis_master_repl_offset"@, false),
        ("slave_repl_offset"@, "redis_slave_repl_offset"@, false),
        ("master_last_io_seconds_ago"@, "redis_master_last_io_seconds_ago"@, false),
        ("master_sync_in_progress"@, "redis_master_sync_in_progress"@, false),
        ("repl_backlog_size"@, "redis_repl_backlog_size_bytes"@, false),
        ("repl_backlog_histlen"@, "redis_repl_backlog_histlen_bytes"@, false),
        ("used_cpu_sys"@, "redis_cpu_sys_seconds"@, true),
        ("used_cpu_user"@, "redis_cpu_user_seconds"@, true),
        ("used_cpu_sys_children"@, "redis_cpu_sys_children_seconds"@, true),
        ("used_cpu_user_children"@, "redis_cpu_user_children_seconds"@, true),
        ("cluster_enabled"@, "redis_cluster_enabled"@, false),
    ]);
    assert(sentinel_catalogue().map_values(|m: MetricView| (m.key, m.name, m.kind is Counter))
        =~= seq![
        ("sentinel_masters"@, "redis_sentinel_masters"@, false),
        ("sentinel_tilt"@, "redis_sentinel_tilt"@, false),
        ("sentinel_running_scripts"@, "redis_sentinel_running_scripts"@, false),
        ("sentinel_scripts_queue_length"@, "redis_sentinel_scripts_queue_length"@, false),
    ]);
    assert(status_catalogue().map_values(|m: StatusView| (m.key, m.name, m.ok_value)) =~= seq![
        ("master_link_status"@, "redis_master_link_up"@, "up"@),
        ("rdb_last_bgsave_status"@, "redis_rdb_last_bgsave_success"@, "ok"@),
        ("aof_last_bgrewrite_status"@, "redis_aof_last_bgrewrite_success"@, "ok"@),
        ("aof_last_write_status"@, "redis_aof_last_write_success"@, "ok"@),
    ]);
}

} // verus!
