//! The objects that make up a `RedisCluster` resource.

use vstd::prelude::*;

use crate::controller;
use crate::controller::redis::builders;
use crate::controller::workload;
use crate::crd::redis_cluster;
use crate::crd::redis_cluster::RedisCluster;
use crate::objects;
use crate::objects::{
    Container, ContainerPort, EnvVar, OwnerReference, Service, ServicePort, StatefulSet,
};
use crate::str_map;
use crate::str_map::StrMap;
use crate::text;

verus! {

/// The labels of the pods of a cluster.
pub open spec fn cluster_labels(name: Seq<char>) -> Map<Seq<char>, Seq<char>> {
    map![
        "app.kubernetes.io/name"@ => "redis-cluster"@,
        "app.kubernetes.io/instance"@ => name,
        "app.kubernetes.io/managed-by"@ => controller::FIELD_MANAGER@,
    ]
}

/// The labels of the pods of a cluster.
pub fn labels(name: &str) -> (m: StrMap<String>)
    ensures
        str_map::texts(m) == cluster_labels(name@),
{
    let mut m: StrMap<String> = StrMap::new();
    m.insert("app.kubernetes.io/name".to_string(), "redis-cluster".to_string());
    m.insert("app.kubernetes.io/instance".to_string(), name.to_string());
    m.insert("app.kubernetes.io/managed-by".to_string(), controller::FIELD_MANAGER.to_string());
    assert(str_map::texts(m) =~= cluster_labels(name@));
    m
}

/// Whether `s` has the Redis port and that of the cluster bus.
pub open spec fn has_cluster_ports(s: Service) -> bool {
    &&& s.spec->0.ports->0@.len() == 2
    &&& workload::is_service_port(s.spec->0.ports->0@[0], "redis"@, workload::REDIS_PORT)
    &&& workload::is_service_port(
        s.spec->0.ports->0@[1],
        "cluster-bus"@,
        workload::CLUSTER_BUS_PORT,
    )
}

/// The service that gives the pods of a cluster their host names.
pub fn build_service(rc: &RedisCluster, ns: &str, owner: OwnerReference) -> (s: Service)
    ensures
        workload::is_service(
            s,
            rc.name@,
            ns@,
            cluster_labels(rc.name@),
            owner,
            cluster_labels(rc.name@),
            true,
        ),
        has_cluster_ports(s),
{
    let l = labels(&rc.name);
    let metadata = controller::object_meta(&rc.name, ns, &l, owner);
    let ports: Vec<ServicePort> = vec![
        workload::service_port("redis", workload::REDIS_PORT),
        workload::service_port("cluster-bus", workload::CLUSTER_BUS_PORT),
    ];
    workload::service(metadata, l, ports, true)
}

/// What starts a node of a cluster, up to the name of its service. Its identity
/// and slot map are kept under `/data` along with the dataset, and it announces
/// its host name, which outlives its address.
pub const CLUSTER_START: &'static str =
    "exec docker-entrypoint.sh redis-server --cluster-enabled yes --cluster-config-file /data/nodes.conf --cluster-node-timeout 5000 --cluster-announce-hostname \"$(hostname).";

/// The rest, up to the flags.
pub const CLUSTER_ENDPOINT: &'static str =
    ".svc.cluster.local\" --cluster-preferred-endpoint-type hostname";

/// The command line of the pods of a cluster.
pub open spec fn cluster_script(rc: RedisCluster, ns: Seq<char>) -> Seq<char> {
    CLUSTER_START@ + rc.name@ + "."@ + ns + CLUSTER_ENDPOINT@ + builders::server_flags(
        rc.spec.persistence,
        rc.spec.resources,
        rc.spec.eviction_policy,
    )
}

/// Whether `c` is the container of the pods of a cluster.
pub open spec fn is_cluster_container(c: Container, rc: RedisCluster, ns: Seq<char>) -> bool {
    &&& c.name@ == "redis"@
    &&& text::opt_view(c.image) == Some(rc.spec.image@)
    &&& objects::opt_list(c.command) == Some(seq!["sh"@, "-c"@])
    &&& objects::opt_list(c.args) == Some(seq![cluster_script(rc, ns)])
    &&& workload::keeps_privileges(c.env)
    &&& c.ports is Some
    &&& c.ports->0@.len() == 2
    &&& workload::is_container_port(c.ports->0@[0], "redis"@, workload::REDIS_PORT)
    &&& workload::is_container_port(c.ports->0@[1], "cluster-bus"@, workload::CLUSTER_BUS_PORT)
    &&& workload::is_probe(c.liveness_probe, seq!["redis-cli"@, "ping"@], 5, 5, 3, None)
    &&& workload::is_probe(c.readiness_probe, seq!["redis-cli"@, "ping"@], 5, 5, 3, None)
    &&& c.resources is Some
    &&& objects::opt_quantities(c.resources->0.requests) == Some(
        controller::effective_requests(rc.spec.resources),
    )
    &&& objects::opt_quantities(c.resources->0.limits) == Some(
        controller::effective_limits(rc.spec.resources),
    )
    &&& workload::mounts_data(c.volume_mounts)
}

/// The stateful set of the pods of a cluster.
pub fn build_statefulset(rc: &RedisCluster, ns: &str, owner: OwnerReference) -> (s: StatefulSet)
    requires
        redis_cluster::pods_fit(rc.spec.masters, rc.spec.replicas_per_master),
    ensures
        workload::is_stateful_set(
            s,
            rc.name@,
            ns@,
            cluster_labels(rc.name@),
            owner,
            redis_cluster::pod_count(
                rc.spec.masters as int,
                rc.spec.replicas_per_master as int,
            ),
            rc.spec.storage,
            controller::effective_spread(
                rc.spec.topology_spread_constraints,
                cluster_labels(rc.name@),
            ),
        ),
        is_cluster_container(workload::container_of(s), *rc, ns@),
{
    let l = labels(&rc.name);
    let mut script = CLUSTER_START.to_string();
    script.append(&rc.name);
    script.append(".");
    script.append(ns);
    script.append(CLUSTER_ENDPOINT);
    script.append(
        &builders::server_args(
            rc.spec.persistence.as_ref(),
            rc.spec.resources.as_ref(),
            rc.spec.eviction_policy,
        ),
    );
    let command: Vec<String> = vec!["sh".to_string(), "-c".to_string()];
    assert(text::owned_views(command@) =~= seq!["sh"@, "-c"@]);
    let args: Vec<String> = vec![script];
    assert(text::owned_views(args@) =~= seq![cluster_script(*rc, ns@)]);
    let ping: Vec<&str> = vec!["redis-cli", "ping"];
    assert(text::views(ping@) =~= seq!["redis-cli"@, "ping"@]);
    let env: Vec<EnvVar> = vec![workload::entrypoint_skip_drop_privs()];
    let ports: Vec<ContainerPort> = vec![
        workload::container_port("redis", workload::REDIS_PORT),
        workload::container_port("cluster-bus", workload::CLUSTER_BUS_PORT),
    ];
    let container = Container {
        name: "redis".to_string(),
        image: Some(rc.spec.image.clone()),
        command: Some(command),
        args: Some(args),
        env: Some(env),
        ports: Some(ports),
        liveness_probe: workload::probe(&ping, 5, 5, 3, None),
        readiness_probe: workload::probe(&ping, 5, 5, 3, None),
        resources: Some(controller::effective_redis_resources(rc.spec.resources.as_ref())),
        volume_mounts: workload::data_mounts(),
    };
    let spread = controller::effective_topology_spread(
        rc.spec.topology_spread_constraints.as_ref(),
        &l,
    );
    workload::stateful_set(
        &rc.name,
        ns,
        &l,
        owner,
        rc.spec.total_pods(),
        &rc.spec.storage,
        spread,
        container,
    )
}

/// The container of a cluster pod runs the image that the cluster asks for as a node
/// of a cluster, which announces the host name that its service gives it. It serves
/// the Redis port and, ten thousand above it, the cluster bus.
pub proof fn lemma_cluster_container(c: Container, rc: RedisCluster, ns: Seq<char>)
    requires
        is_cluster_container(c, rc, ns),
    ensures
        c.name@ == "redis"@,
        text::opt_view(c.image) == Some(rc.spec.image@),
        c.ports->0@.len() == 2,
        c.ports->0@[0].container_port == 6379,
        c.ports->0@[1].container_port == c.ports->0@[0].container_port + 10_000,
        objects::opt_list(c.command) == Some(seq!["sh"@, "-c"@]),
        objects::opt_list(c.args) == Some(
            seq![
                CLUSTER_START@ + rc.name@ + "."@ + ns + CLUSTER_ENDPOINT@ + builders::server_flags(
                    rc.spec.persistence,
                    rc.spec.resources,
                    rc.spec.eviction_policy,
                ),
            ],
        ),
        objects::opt_list(c.liveness_probe->0.exec_action->0.command) == Some(
            seq!["redis-cli"@, "ping"@],
        ),
        objects::opt_list(c.readiness_probe->0.exec_action->0.command) == Some(
            seq!["redis-cli"@, "ping"@],
        ),
        c.liveness_probe->0.initial_delay_seconds == Some(5i32),
        c.liveness_probe->0.period_seconds == Some(5i32),
        c.liveness_probe->0.timeout_seconds == Some(3i32),
        c.readiness_probe->0.initial_delay_seconds == Some(5i32),
        c.readiness_probe->0.period_seconds == Some(5i32),
        c.readiness_probe->0.timeout_seconds == Some(3i32),
        c.env->0@.len() == 1 && c.env->0@[0].name@ == "SKIP_DROP_PRIVS"@ && text::opt_view(
            c.env->0@[0].value,
        ) == Some("1"@),
        c.volume_mounts->0@.len() == 1 && c.volume_mounts->0@[0].mount_path@ == "/data"@,
{
}

} // verus!
