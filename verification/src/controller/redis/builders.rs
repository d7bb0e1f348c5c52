//! The objects that make up a `Redis` resource.

use vstd::prelude::*;

use crate::controller;
use crate::controller::redis_cluster::command;
use crate::controller::scripts;
use crate::controller::workload;
use crate::crd::redis::{
    PodDisruptionBudgetSpec, Redis, RedisSpec, ResourcesSpec, SentinelSpec,
};
use crate::number;
use crate::objects;
use crate::objects::{
    Container, ContainerPort, EnvVar, IntOrString, OwnerReference, Quantity,
    ResourceRequirements, Service, ServicePort, StatefulSet,
};
use crate::str_map;
use crate::str_map::StrMap;
use crate::text;

verus! {

/// The label that the stateful set controller puts on each pod.
pub const POD_NAME_LABEL: &'static str = "statefulset.kubernetes.io/pod-name";

/// The label by which the operator tells the primary from replicas.
pub const ROLE_LABEL: &'static str = "redis-operator/role";

/// The labels of the data pods.
pub open spec fn data_labels(name: Seq<char>) -> Map<Seq<char>, Seq<char>> {
    map![
        "app.kubernetes.io/name"@ => "redis"@,
        "app.kubernetes.io/instance"@ => name,
        "app.kubernetes.io/managed-by"@ => controller::FIELD_MANAGER@,
    ]
}

/// The labels of the Sentinel pods.
pub open spec fn sentinel_labels_of(name: Seq<char>) -> Map<Seq<char>, Seq<char>> {
    map![
        "app.kubernetes.io/name"@ => "redis-sentinel"@,
        "app.kubernetes.io/instance"@ => name,
        "app.kubernetes.io/component"@ => "sentinel"@,
        "app.kubernetes.io/managed-by"@ => controller::FIELD_MANAGER@,
    ]
}

/// The labels of the data pods.
pub fn labels(name: &str) -> (m: StrMap<String>)
    ensures
        str_map::texts(m) == data_labels(name@),
{
    let mut m: StrMap<String> = StrMap::new();
    m.insert("app.kubernetes.io/name".to_string(), "redis".to_string());
    m.insert("app.kubernetes.io/instance".to_string(), name.to_string());
    m.insert("app.kubernetes.io/managed-by".to_string(), controller::FIELD_MANAGER.to_string());
    assert(str_map::texts(m) =~= data_labels(name@));
    m
}

/// The labels of the Sentinel pods.
pub fn sentinel_labels(name: &str) -> (m: StrMap<String>)
    ensures
        str_map::texts(m) == sentinel_labels_of(name@),
{
    let mut m: StrMap<String> = StrMap::new();
    m.insert("app.kubernetes.io/name".to_string(), "redis-sentinel".to_string());
    m.insert("app.kubernetes.io/instance".to_string(), name.to_string());
    m.insert("app.kubernetes.io/component".to_string(), "sentinel".to_string());
    m.insert("app.kubernetes.io/managed-by".to_string(), controller::FIELD_MANAGER.to_string());
    assert(str_map::texts(m) =~= sentinel_labels_of(name@));
    m
}

/// Whether a pod with the labels `pod` is selected by `selector`.
pub open spec fn selected_by(
    pod: Map<Seq<char>, Seq<char>>,
    selector: Map<Seq<char>, Seq<char>>,
) -> bool {
    forall|k: Seq<char>| #[trigger]
        selector.contains_key(k) ==> pod.contains_key(k) && pod[k] == selector[k]
}

/// Data pods and Sentinel pods of any two resources are apart: what selects the
/// ones does not select the others.
pub proof fn lemma_labels_apart(a: Seq<char>, b: Seq<char>)
    ensures
        !selected_by(sentinel_labels_of(a), data_labels(b)),
        !selected_by(data_labels(a), sentinel_labels_of(b)),
{
    reveal_strlit("redis");
    reveal_strlit("redis-sentinel");
    reveal_strlit("app.kubernetes.io/name");
    reveal_strlit("app.kubernetes.io/instance");
    reveal_strlit("app.kubernetes.io/component");
    reveal_strlit("app.kubernetes.io/managed-by");
    let k = "app.kubernetes.io/name"@;
    assert(k.len() == 22);
    assert("app.kubernetes.io/instance"@.len() == 26);
    assert("app.kubernetes.io/component"@.len() == 27);
    assert("app.kubernetes.io/managed-by"@.len() == 28);
    assert("redis"@.len() == 5 && "redis-sentinel"@.len() == 14);
    assert(data_labels(b).contains_key(k) && data_labels(b)[k] == "redis"@);
    assert(sentinel_labels_of(b).contains_key(k) && sentinel_labels_of(b)[k] == "redis-sentinel"@);
    assert(data_labels(a)[k] == "redis"@);
    assert(sentinel_labels_of(a)[k] == "redis-sentinel"@);
}

/// The budget of the data pods where the user says nothing: one at a time, from
/// 2 pods on. More could go while a copy of the data is served, but one at a time
/// keeps the workload usable through a drain. Pods that are not ready may go
/// whatever the budget says, or a drain would get stuck on them.
pub fn default_redis_pdb(spec: &RedisSpec) -> (r: Option<PodDisruptionBudgetSpec>)
    ensures
        r is Some <==> spec.replicas >= 2,
        r matches Some(b) ==> {
            &&& b.min_available is None
            &&& b.max_unavailable == Some(IntOrString::Int(1))
            &&& text::opt_view(b.unhealthy_pod_eviction_policy) == Some("AlwaysAllow"@)
        },
{
    if spec.replicas < 2 {
        return None;
    }
    Some(
        PodDisruptionBudgetSpec {
            min_available: None,
            max_unavailable: Some(IntOrString::Int(1)),
            unhealthy_pod_eviction_policy: Some("AlwaysAllow".to_string()),
        },
    )
}

/// The budget of the Sentinel pods where the user says nothing: as many stay as
/// failover needs. Below 3 pods those would be all of them, and no drain could
/// ever go on.
pub fn default_sentinel_pdb(sentinel: &SentinelSpec) -> (r: Option<PodDisruptionBudgetSpec>)
    ensures
        r is Some <==> sentinel.replicas >= 3,
        r matches Some(b) ==> {
            &&& b.min_available is Some
            &&& b.min_available->0 is Int
            &&& b.min_available->0->Int_0 == sentinel.survivors()
            &&& b.max_unavailable is None
            &&& text::opt_view(b.unhealthy_pod_eviction_policy) == Some("AlwaysAllow"@)
        },
{
    if sentinel.replicas < 3 {
        return None;
    }
    Some(
        PodDisruptionBudgetSpec {
            min_available: Some(IntOrString::Int(sentinel.min_available())),
            max_unavailable: None,
            unhealthy_pod_eviction_policy: Some("AlwaysAllow".to_string()),
        },
    )
}

/// The default budget of the data pods passes its own check.
pub proof fn lemma_default_redis_pdb_accepted(spec: RedisSpec, b: PodDisruptionBudgetSpec)
    requires
        spec.replicas >= 2,
        b.min_available is None,
        b.max_unavailable == Some(IntOrString::Int(1)),
    ensures
        controller::verdict_of(b, spec.replicas as int, spec.slack()) is Accepted,
{
}

/// The default budget of the Sentinel pods passes its own check, whatever the
/// quorum.
pub proof fn lemma_default_sentinel_pdb_accepted(
    sentinel: SentinelSpec,
    b: PodDisruptionBudgetSpec,
)
    requires
        sentinel.replicas >= 3,
        b.min_available is Some,
        b.min_available->0 is Int,
        b.min_available->0->Int_0 == sentinel.survivors(),
        b.max_unavailable is None,
    ensures
        controller::verdict_of(b, sentinel.replicas as int, sentinel.slack()) is Accepted,
{
}

/// `name` with `-primary` behind it.
pub fn primary_service_name(name: &str) -> (s: String)
    ensures
        s@ == name@ + "-primary"@,
{
    let mut s = name.to_string();
    s.append("-primary");
    s
}

/// `name` with `-replicas` behind it.
pub fn replicas_service_name(name: &str) -> (s: String)
    ensures
        s@ == name@ + "-replicas"@,
{
    let mut s = name.to_string();
    s.append("-replicas");
    s
}

/// `name` with `-sentinel` behind it.
pub fn sentinel_sts_name(name: &str) -> (s: String)
    ensures
        s@ == name@ + "-sentinel"@,
{
    let mut s = name.to_string();
    s.append("-sentinel");
    s
}

/// What `m` says in texts, where it is there.
pub open spec fn plain(m: Option<StrMap<String>>) -> Option<Map<Seq<char>, Seq<char>>> {
    objects::opt_texts(m)
}

/// Requests and limits as the user gives them, and no others.
pub fn build_resource_requirements(spec: &ResourcesSpec) -> (rr: ResourceRequirements)
    ensures
        objects::opt_quantities(rr.requests) == plain(spec.requests),
        objects::opt_quantities(rr.limits) == plain(spec.limits),
{
    let requests = match &spec.requests {
        Some(m) => {
            let none: StrMap<Quantity> = StrMap::new();
            let ghost e = objects::quantities(none);
            assert(e =~= Map::<Seq<char>, Seq<char>>::empty());
            assert(e.union_prefer_right(str_map::texts(*m)) =~= str_map::texts(*m));
            Some(controller::put_all(none, m))
        },
        None => None,
    };
    let limits = match &spec.limits {
        Some(m) => {
            let none: StrMap<Quantity> = StrMap::new();
            let ghost e = objects::quantities(none);
            assert(e =~= Map::<Seq<char>, Seq<char>>::empty());
            assert(e.union_prefer_right(str_map::texts(*m)) =~= str_map::texts(*m));
            Some(controller::put_all(none, m))
        },
        None => None,
    };
    ResourceRequirements { requests, limits }
}

/// What Sentinel containers ask for and are limited to unless told otherwise:
/// just enough not to be throttled under pressure. A limit on processor time
/// would throttle them all the same, so there is none.
pub fn default_sentinel_resources() -> (rr: ResourceRequirements)
    ensures
        objects::opt_quantities(rr.requests) == Some(map!["cpu"@ => "50m"@, "memory"@ => "64Mi"@]),
        objects::opt_quantities(rr.limits) == Some(map!["memory"@ => "128Mi"@]),
{
    let mut requests: StrMap<Quantity> = StrMap::new();
    requests.insert("cpu".to_string(), Quantity("50m".to_string()));
    requests.insert("memory".to_string(), Quantity("64Mi".to_string()));
    assert(objects::quantities(requests) =~= map!["cpu"@ => "50m"@, "memory"@ => "64Mi"@]);
    let mut limits: StrMap<Quantity> = StrMap::new();
    limits.insert("memory".to_string(), Quantity("128Mi".to_string()));
    assert(objects::quantities(limits) =~= map!["memory"@ => "128Mi"@]);
    ResourceRequirements { requests: Some(requests), limits: Some(limits) }
}

/// The host name of the first pod: the primary before any failover.
pub open spec fn first_host(name: Seq<char>, ns: Seq<char>) -> Seq<char> {
    command::host_of(name + "-0"@, name, ns)
}

/// The host name of the first pod: the primary before any failover.
pub fn primary_hostname(name: &str, ns: &str) -> (s: String)
    ensures
        s@ == first_host(name@, ns@),
{
    let mut pod = name.to_string();
    pod.append("-0");
    command::pod_fqdn(&pod, name, ns)
}

/// The service that gives data pods their host names.
pub fn build_headless_service(redis: &Redis, ns: &str, owner: OwnerReference) -> (s: Service)
    ensures
        workload::is_service(
            s,
            redis.name@,
            ns@,
            data_labels(redis.name@),
            owner,
            data_labels(redis.name@),
            true,
        ),
        workload::has_one_port(s, "redis"@, workload::REDIS_PORT),
{
    let l = labels(&redis.name);
    let metadata = controller::object_meta(&redis.name, ns, &l, owner);
    let ports: Vec<ServicePort> = vec![workload::service_port("redis", workload::REDIS_PORT)];
    workload::service(metadata, l, ports, true)
}

/// What the primary service selects: the one data pod with this name.
pub open spec fn primary_selector(name: Seq<char>, pod: Seq<char>) -> Map<Seq<char>, Seq<char>> {
    data_labels(name).insert(POD_NAME_LABEL@, pod)
}

/// What the replicas service selects: the data pods that carry this role.
pub open spec fn replicas_selector(name: Seq<char>) -> Map<Seq<char>, Seq<char>> {
    data_labels(name).insert(ROLE_LABEL@, "replica"@)
}

/// The service of the current primary. It selects the pod by name, so that it
/// follows a failover without clients having to know of Sentinel.
pub fn build_primary_service(
    redis: &Redis,
    ns: &str,
    owner: OwnerReference,
    master_pod: &str,
) -> (s: Service)
    ensures
        workload::is_service(
            s,
            redis.name@ + "-primary"@,
            ns@,
            data_labels(redis.name@),
            owner,
            primary_selector(redis.name@, master_pod@),
            false,
        ),
        workload::has_one_port(s, "redis"@, workload::REDIS_PORT),
{
    let l = labels(&redis.name);
    let metadata = controller::object_meta(&primary_service_name(&redis.name), ns, &l, owner);
    let mut selector = l;
    selector.insert(POD_NAME_LABEL.to_string(), master_pod.to_string());
    assert(str_map::texts(selector) =~= primary_selector(redis.name@, master_pod@));
    let ports: Vec<ServicePort> = vec![workload::service_port("redis", workload::REDIS_PORT)];
    workload::service(metadata, selector, ports, false)
}

/// The service of the replicas. It selects the role that the operator puts on
/// pods, which follows a failover as well.
pub fn build_replicas_service(redis: &Redis, ns: &str, owner: OwnerReference) -> (s: Service)
    ensures
        workload::is_service(
            s,
            redis.name@ + "-replicas"@,
            ns@,
            data_labels(redis.name@),
            owner,
            replicas_selector(redis.name@),
            false,
        ),
        workload::has_one_port(s, "redis"@, workload::REDIS_PORT),
{
    let l = labels(&redis.name);
    let metadata = controller::object_meta(&replicas_service_name(&redis.name), ns, &l, owner);
    let mut selector = l;
    selector.insert(ROLE_LABEL.to_string(), "replica".to_string());
    assert(str_map::texts(selector) =~= replicas_selector(redis.name@));
    let ports: Vec<ServicePort> = vec![workload::service_port("redis", workload::REDIS_PORT)];
    workload::service(metadata, selector, ports, false)
}

/// The service that gives Sentinel pods their host names.
pub fn build_sentinel_headless_service(redis: &Redis, ns: &str, owner: OwnerReference) -> (s:
    Service)
    ensures
        workload::is_service(
            s,
            redis.name@ + "-sentinel"@,
            ns@,
            sentinel_labels_of(redis.name@),
            owner,
            sentinel_labels_of(redis.name@),
            true,
        ),
        workload::has_one_port(s, "sentinel"@, workload::SENTINEL_PORT),
{
    let l = sentinel_labels(&redis.name);
    let metadata = controller::object_meta(&sentinel_sts_name(&redis.name), ns, &l, owner);
    let ports: Vec<ServicePort> = vec![
        workload::service_port("sentinel", workload::SENTINEL_PORT),
    ];
    workload::service(metadata, l, ports, true)
}

/// The `--maxmemory` flag of a container with these limits and requests.
pub open spec fn maxmemory_flag(
    limits: Map<Seq<char>, Seq<char>>,
    requests: Map<Seq<char>, Seq<char>>,
) -> Seq<char> {
    let mem = if limits.contains_key("memory"@) {
        Some(limits["memory"@])
    } else if requests.contains_key("memory"@) {
        Some(requests["memory"@])
    } else {
        None
    };
    match controller::seven_tenths(mem) {
        Some(n) => " --maxmemory "@ + number::written(n),
        None => Seq::empty(),
    }
}

/// The flags that follow from a resource: what is kept, how much memory is used,
/// and what goes when it is full.
pub open spec fn server_flags(
    persistence: Option<crate::crd::redis::PersistenceSpec>,
    resources: Option<ResourcesSpec>,
    eviction: Option<crate::crd::redis::EvictionPolicy>,
) -> Seq<char> {
    controller::persistence_flags(persistence) + maxmemory_flag(
        controller::effective_limits(resources),
        controller::effective_requests(resources),
    ) + controller::eviction_flag(eviction)
}

/// The flags that follow from a resource.
pub fn server_args(
    persistence: Option<&crate::crd::redis::PersistenceSpec>,
    resources: Option<&ResourcesSpec>,
    eviction: Option<crate::crd::redis::EvictionPolicy>,
) -> (s: String)
    ensures
        s@ == server_flags(
            controller::pointee(persistence),
            controller::pointee(resources),
            eviction,
        ),
{
    let mut s = controller::persistence_args(persistence);
    let rr = controller::effective_redis_resources(resources);
    let ghost base = s@;
    match controller::maxmemory_bytes(&rr) {
        Some(n) => {
            s.append(" --maxmemory ");
            s.append(&number::u64_text(n));
        },
        None => {},
    }
    assert(s@ =~= base + maxmemory_flag(
        controller::effective_limits(controller::pointee(resources)),
        controller::effective_requests(controller::pointee(resources)),
    ));
    s.append(&controller::eviction_args(eviction));
    s
}

/// The script of the data pods.
pub open spec fn redis_script(redis: Redis, ns: Seq<char>) -> Seq<char> {
    let name = redis.name@;
    let primary = first_host(name, ns);
    let flags = server_flags(
        redis.spec.persistence,
        redis.spec.resources,
        redis.spec.eviction_policy,
    );
    match redis.spec.sentinel {
        Some(sentinel) => text::concatenated(
            seq![
                scripts::SENTINEL_AWARE_START@,
                name,
                "."@,
                ns,
                scripts::ASK_SENTINEL@,
                name + "-sentinel"@,
                scripts::QUERY_SENTINEL@,
                name + "-sentinel"@,
                scripts::MASTER_BY_NAME@,
                sentinel.master_name_view(),
                scripts::FOLLOW_MASTER@,
                primary,
                scripts::SERVE_WITH_CONF@,
                flags,
                scripts::ANNOUNCE_AS@,
            ],
        ),
        None => text::concatenated(
            seq![
                scripts::ORDINAL_START@,
                name,
                "."@,
                ns,
                scripts::SERVE_AS_FIRST@,
                flags,
                scripts::SERVE_AS_OTHER@,
                flags,
                scripts::REPLICA_OF@,
                primary,
                scripts::ORDINAL_END@,
            ],
        ),
    }
}

/// The command line of the data pods.
///
/// Without Sentinel the first pod is the primary and the others replicate it.
/// With Sentinel a pod asks it on first boot which pod to follow, and falls back
/// to the same order where there is no answer; the one line that says so is kept
/// in a file, where Sentinel rewrites it after a failover, while every other
/// setting is a flag.
pub fn build_redis_args(redis: &Redis, ns: &str) -> (args: Vec<String>)
    ensures
        text::owned_views(args@) == seq!["sh"@, "-c"@, redis_script(*redis, ns@)],
{
    let name = redis.name.as_str();
    let primary = primary_hostname(name, ns);
    let flags = server_args(
        redis.spec.persistence.as_ref(),
        redis.spec.resources.as_ref(),
        redis.spec.eviction_policy,
    );
    let ghost want = redis_script(*redis, ns@);
    let script = match &redis.spec.sentinel {
        Some(sentinel) => {
            let svc = sentinel_sts_name(name);
            let parts: Vec<&str> = vec![
                scripts::SENTINEL_AWARE_START,
                name,
                ".",
                ns,
                scripts::ASK_SENTINEL,
                svc.as_str(),
                scripts::QUERY_SENTINEL,
                svc.as_str(),
                scripts::MASTER_BY_NAME,
                sentinel.effective_master_name(),
                scripts::FOLLOW_MASTER,
                primary.as_str(),
                scripts::SERVE_WITH_CONF,
                flags.as_str(),
                scripts::ANNOUNCE_AS,
            ];
            let s = text::concat(&parts);
            assert(text::views(parts@) =~= seq![
                scripts::SENTINEL_AWARE_START@,
                name@,
                "."@,
                ns@,
                scripts::ASK_SENTINEL@,
                name@ + "-sentinel"@,
                scripts::QUERY_SENTINEL@,
                name@ + "-sentinel"@,
                scripts::MASTER_BY_NAME@,
                sentinel.master_name_view(),
                scripts::FOLLOW_MASTER@,
                primary@,
                scripts::SERVE_WITH_CONF@,
                flags@,
                scripts::ANNOUNCE_AS@,
            ]);
            s
        },
        None => {
            let parts: Vec<&str> = vec![
                scripts::ORDINAL_START,
                name,
                ".",
                ns,
                scripts::SERVE_AS_FIRST,
                flags.as_str(),
                scripts::SERVE_AS_OTHER,
                flags.as_str(),
                scripts::REPLICA_OF,
                primary.as_str(),
                scripts::ORDINAL_END,
            ];
            let s = text::concat(&parts);
            assert(text::views(parts@) =~= seq![
                scripts::ORDINAL_START@,
                name@,
                "."@,
                ns@,
                scripts::SERVE_AS_FIRST@,
                flags@,
                scripts::SERVE_AS_OTHER@,
                flags@,
                scripts::REPLICA_OF@,
                primary@,
                scripts::ORDINAL_END@,
            ]);
            s
        },
    };
    assert(script@ == want);
    let args: Vec<String> = vec!["sh".to_string(), "-c".to_string(), script];
    assert(text::owned_views(args@) =~= seq!["sh"@, "-c"@, want]);
    args
}

/// Every way in which a data pod starts its server carries the flags: the one
/// with Sentinel, and the two without.
pub proof fn lemma_every_start_carries_flags(redis: Redis, ns: Seq<char>)
    ensures
        ({
            let flags = server_flags(
                redis.spec.persistence,
                redis.spec.resources,
                redis.spec.eviction_policy,
            );
            let script = redis_script(redis, ns);
            match redis.spec.sentinel {
                Some(_) => exists|a: Seq<char>, b: Seq<char>|
                    script == #[trigger] (a + (scripts::SERVE_WITH_CONF@ + flags) + b),
                None => exists|a: Seq<char>, b: Seq<char>|
                    script == #[trigger] (a + (scripts::SERVE_AS_FIRST@ + flags) + (
                    scripts::SERVE_AS_OTHER@ + flags) + b),
            }
        }),
{
    let name = redis.name@;
    let primary = first_host(name, ns);
    let flags = server_flags(
        redis.spec.persistence,
        redis.spec.resources,
        redis.spec.eviction_policy,
    );
    let script = redis_script(redis, ns);
    match redis.spec.sentinel {
        Some(sentinel) => {
            let parts = seq![
                scripts::SENTINEL_AWARE_START@,
                name,
                "."@,
                ns,
                scripts::ASK_SENTINEL@,
                name + "-sentinel"@,
                scripts::QUERY_SENTINEL@,
                name + "-sentinel"@,
                scripts::MASTER_BY_NAME@,
                sentinel.master_name_view(),
                scripts::FOLLOW_MASTER@,
                primary,
            ];
            let a = text::concatenated(parts);
            let all = parts.push(scripts::SERVE_WITH_CONF@).push(flags).push(scripts::ANNOUNCE_AS@);
            lemma_concatenated_push(parts, scripts::SERVE_WITH_CONF@);
            lemma_concatenated_push(parts.push(scripts::SERVE_WITH_CONF@), flags);
            lemma_concatenated_push(
                parts.push(scripts::SERVE_WITH_CONF@).push(flags),
                scripts::ANNOUNCE_AS@,
            );
            assert(all =~= seq![
                scripts::SENTINEL_AWARE_START@,
                name,
                "."@,
                ns,
                scripts::ASK_SENTINEL@,
                name + "-sentinel"@,
                scripts::QUERY_SENTINEL@,
                name + "-sentinel"@,
                scripts::MASTER_BY_NAME@,
                sentinel.master_name_view(),
                scripts::FOLLOW_MASTER@,
                primary,
                scripts::SERVE_WITH_CONF@,
                flags,
                scripts::ANNOUNCE_AS@,
            ]);
            assert(script == text::concatenated(all));
            assert(script =~= a + (scripts::SERVE_WITH_CONF@ + flags) + scripts::ANNOUNCE_AS@);
        },
        None => {
            let parts = seq![scripts::ORDINAL_START@, name, "."@, ns];
            let a = text::concatenated(parts);
            let p1 = parts.push(scripts::SERVE_AS_FIRST@);
            let p2 = p1.push(flags);
            let p3 = p2.push(scripts::SERVE_AS_OTHER@);
            let p4 = p3.push(flags);
            let p5 = p4.push(scripts::REPLICA_OF@);
            let p6 = p5.push(primary);
            let p7 = p6.push(scripts::ORDINAL_END@);
            lemma_concatenated_push(parts, scripts::SERVE_AS_FIRST@);
            lemma_concatenated_push(p1, flags);
            lemma_concatenated_push(p2, scripts::SERVE_AS_OTHER@);
            lemma_concatenated_push(p3, flags);
            lemma_concatenated_push(p4, scripts::REPLICA_OF@);
            lemma_concatenated_push(p5, primary);
            lemma_concatenated_push(p6, scripts::ORDINAL_END@);
            assert(p7 =~= seq![
                scripts::ORDINAL_START@,
                name,
                "."@,
                ns,
                scripts::SERVE_AS_FIRST@,
                flags,
                scripts::SERVE_AS_OTHER@,
                flags,
                scripts::REPLICA_OF@,
                primary,
                scripts::ORDINAL_END@,
            ]);
            assert(script == text::concatenated(p7));
            let b = scripts::REPLICA_OF@ + primary + scripts::ORDINAL_END@;
            assert(script =~= a + (scripts::SERVE_AS_FIRST@ + flags) + (scripts::SERVE_AS_OTHER@
                + flags) + b);
        },
    }
}

proof fn lemma_concatenated_push(v: Seq<Seq<char>>, s: Seq<char>)
    ensures
        text::concatenated(v.push(s)) == text::concatenated(v) + s,
{
    assert(v.push(s).drop_last() =~= v);
}

/// Whether `c` is the container of the data pods.
pub open spec fn is_redis_container(c: Container, redis: Redis, ns: Seq<char>) -> bool {
    &&& c.name@ == "redis"@
    &&& text::opt_view(c.image) == Some(redis.spec.image@)
    &&& objects::opt_list(c.command) == Some(seq!["sh"@])
    &&& objects::opt_list(c.args) == Some(seq!["-c"@, redis_script(redis, ns)])
    &&& workload::keeps_privileges(c.env)
    &&& c.ports is Some
    &&& c.ports->0@.len() == 1
    &&& workload::is_container_port(c.ports->0@[0], "redis"@, workload::REDIS_PORT)
    &&& workload::is_probe(c.liveness_probe, seq!["redis-cli"@, "ping"@], 5, 5, 3, None)
    &&& workload::is_probe(c.readiness_probe, seq!["redis-cli"@, "ping"@], 5, 5, 3, None)
    &&& c.resources is Some
    &&& objects::opt_quantities(c.resources->0.requests) == Some(
        controller::effective_requests(redis.spec.resources),
    )
    &&& objects::opt_quantities(c.resources->0.limits) == Some(
        controller::effective_limits(redis.spec.resources),
    )
    &&& workload::mounts_data(c.volume_mounts)
}

/// The stateful set of the data pods.
pub fn build_redis_statefulset(redis: &Redis, ns: &str, owner: OwnerReference) -> (s: StatefulSet)
    ensures
        workload::is_stateful_set(
            s,
            redis.name@,
            ns@,
            data_labels(redis.name@),
            owner,
            redis.spec.replicas as int,
            redis.spec.storage,
            controller::effective_spread(
                redis.spec.topology_spread_constraints,
                data_labels(redis.name@),
            ),
        ),
        is_redis_container(workload::container_of(s), *redis, ns@),
{
    let l = labels(&redis.name);
    let line = build_redis_args(redis, ns);
    let ghost all = text::owned_views(line@);
    assert(all.len() == line.len());
    let (command, args) = workload::command_and_args(line);
    assert(all.take(1) =~= seq!["sh"@]);
    assert(all.skip(1) =~= seq!["-c"@, redis_script(*redis, ns@)]);
    let ping: Vec<&str> = vec!["redis-cli", "ping"];
    assert(text::views(ping@) =~= seq!["redis-cli"@, "ping"@]);
    let env: Vec<EnvVar> = vec![workload::entrypoint_skip_drop_privs()];
    let ports: Vec<ContainerPort> = vec![
        workload::container_port("redis", workload::REDIS_PORT),
    ];
    let container = Container {
        name: "redis".to_string(),
        image: Some(redis.spec.image.clone()),
        command: Some(command),
        args: Some(args),
        env: Some(env),
        ports: Some(ports),
        liveness_probe: workload::probe(&ping, 5, 5, 3, None),
        readiness_probe: workload::probe(&ping, 5, 5, 3, None),
        resources: Some(controller::effective_redis_resources(redis.spec.resources.as_ref())),
        volume_mounts: workload::data_mounts(),
    };
    let spread = controller::effective_topology_spread(
        redis.spec.topology_spread_constraints.as_ref(),
        &l,
    );
    workload::stateful_set(
        &redis.name,
        ns,
        &l,
        owner,
        redis.spec.replicas,
        &redis.spec.storage,
        spread,
        container,
    )
}

/// The script of the Sentinel pods.
pub open spec fn sentinel_script(name: Seq<char>, ns: Seq<char>, sentinel: SentinelSpec) -> Seq<
    char,
> {
    let master = sentinel.master_name_view();
    text::concatenated(
        seq![
            scripts::SENTINEL_START@,
            name + "-sentinel"@,
            "."@,
            ns,
            scripts::MONITOR@,
            master,
            scripts::SPACE@,
            first_host(name, ns),
            scripts::QUORUM_OF_PORT@,
            number::written(sentinel.quorum_size()),
            scripts::DOWN_AFTER@,
            master,
            scripts::FAILOVER_TIMEOUT@,
            master,
            scripts::PARALLEL_SYNCS@,
            master,
            scripts::SENTINEL_END@,
        ],
    )
}

/// The command line of the Sentinel pods. The configuration is written on first
/// boot only: Sentinel rewrites it as it goes, and a restart is to find what it
/// knew.
pub fn build_sentinel_args(redis: &Redis, ns: &str, sentinel: &SentinelSpec) -> (args: Vec<String>)
    ensures
        text::owned_views(args@) == seq![
            "sh"@,
            "-c"@,
            sentinel_script(redis.name@, ns@, *sentinel),
        ],
{
    let svc = sentinel_sts_name(&redis.name);
    let primary = primary_hostname(&redis.name, ns);
    let quorum = number::i32_text(sentinel.effective_quorum());
    let master = sentinel.effective_master_name();
    let parts: Vec<&str> = vec![
        scripts::SENTINEL_START,
        svc.as_str(),
        ".",
        ns,
        scripts::MONITOR,
        master,
        scripts::SPACE,
        primary.as_str(),
        scripts::QUORUM_OF_PORT,
        quorum.as_str(),
        scripts::DOWN_AFTER,
        master,
        scripts::FAILOVER_TIMEOUT,
        master,
        scripts::PARALLEL_SYNCS,
        master,
        scripts::SENTINEL_END,
    ];
    let script = text::concat(&parts);
    assert(text::views(parts@) =~= seq![
        scripts::SENTINEL_START@,
        redis.name@ + "-sentinel"@,
        "."@,
        ns@,
        scripts::MONITOR@,
        master@,
        scripts::SPACE@,
        primary@,
        scripts::QUORUM_OF_PORT@,
        quorum@,
        scripts::DOWN_AFTER@,
        master@,
        scripts::FAILOVER_TIMEOUT@,
        master@,
        scripts::PARALLEL_SYNCS@,
        master@,
        scripts::SENTINEL_END@,
    ]);
    let args: Vec<String> = vec!["sh".to_string(), "-c".to_string(), script];
    assert(text::owned_views(args@) =~= seq![
        "sh"@,
        "-c"@,
        sentinel_script(redis.name@, ns@, *sentinel),
    ]);
    args
}

/// The image of the Sentinel pods.
pub open spec fn sentinel_image(redis: Redis, sentinel: SentinelSpec) -> Seq<char> {
    match sentinel.image {
        Some(i) => i@,
        None => redis.spec.image@,
    }
}

/// What the Sentinel container asks for.
pub open spec fn sentinel_requests(sentinel: SentinelSpec) -> Option<Map<Seq<char>, Seq<char>>> {
    match sentinel.resources {
        Some(r) => plain(r.requests),
        None => Some(map!["cpu"@ => "50m"@, "memory"@ => "64Mi"@]),
    }
}

/// What the Sentinel container is limited to.
pub open spec fn sentinel_limits(sentinel: SentinelSpec) -> Option<Map<Seq<char>, Seq<char>>> {
    match sentinel.resources {
        Some(r) => plain(r.limits),
        None => Some(map!["memory"@ => "128Mi"@]),
    }
}

/// What a Sentinel pod is asked whether it is alive.
pub open spec fn sentinel_ping() -> Seq<Seq<char>> {
    seq!["redis-cli"@, "-p"@, number::written(26379), "ping"@]
}

/// Whether `c` is the container of the Sentinel pods. Readiness reacts within
/// seconds, for a sentinel that has stalled should get no clients; liveness waits
/// for a minute, for it recovers on its own.
pub open spec fn is_sentinel_container(
    c: Container,
    redis: Redis,
    ns: Seq<char>,
    sentinel: SentinelSpec,
) -> bool {
    &&& c.name@ == "sentinel"@
    &&& text::opt_view(c.image) == Some(sentinel_image(redis, sentinel))
    &&& objects::opt_list(c.command) == Some(seq!["sh"@])
    &&& objects::opt_list(c.args) == Some(
        seq!["-c"@, sentinel_script(redis.name@, ns, sentinel)],
    )
    &&& c.env is None
    &&& c.ports is Some
    &&& c.ports->0@.len() == 1
    &&& workload::is_container_port(c.ports->0@[0], "sentinel"@, workload::SENTINEL_PORT)
    &&& workload::is_probe(c.liveness_probe, sentinel_ping(), 15, 10, 5, Some(6))
    &&& workload::is_probe(c.readiness_probe, sentinel_ping(), 5, 5, 3, Some(2))
    &&& c.resources is Some
    &&& objects::opt_quantities(c.resources->0.requests) == sentinel_requests(sentinel)
    &&& objects::opt_quantities(c.resources->0.limits) == sentinel_limits(sentinel)
    &&& workload::mounts_data(c.volume_mounts)
}

/// The stateful set of the Sentinel pods. It spreads on its own labels, so that
/// sentinels and data pods are spread independently.
pub fn build_sentinel_statefulset(
    redis: &Redis,
    ns: &str,
    sentinel: &SentinelSpec,
    owner: OwnerReference,
) -> (s: StatefulSet)
    ensures
        workload::is_stateful_set(
            s,
            redis.name@ + "-sentinel"@,
            ns@,
            sentinel_labels_of(redis.name@),
            owner,
            sentinel.replicas as int,
            sentinel.storage,
            controller::effective_spread(
                sentinel.topology_spread_constraints,
                sentinel_labels_of(redis.name@),
            ),
        ),
        is_sentinel_container(workload::container_of(s), *redis, ns@, *sentinel),
{
    let name = sentinel_sts_name(&redis.name);
    let l = sentinel_labels(&redis.name);
    let image = match &sentinel.image {
        Some(i) => i.clone(),
        None => redis.spec.image.clone(),
    };
    let line = build_sentinel_args(redis, ns, sentinel);
    let ghost all = text::owned_views(line@);
    assert(all.len() == line.len());
    let (command, args) = workload::command_and_args(line);
    assert(all.take(1) =~= seq!["sh"@]);
    assert(all.skip(1) =~= seq!["-c"@, sentinel_script(redis.name@, ns@, *sentinel)]);
    let port = number::i32_text(workload::SENTINEL_PORT);
    let ping: Vec<&str> = vec!["redis-cli", "-p", port.as_str(), "ping"];
    assert(text::views(ping@) =~= sentinel_ping());
    let ports: Vec<ContainerPort> = vec![
        workload::container_port("sentinel", workload::SENTINEL_PORT),
    ];
    let resources = match &sentinel.resources {
        Some(r) => build_resource_requirements(r),
        None => default_sentinel_resources(),
    };
    let container = Container {
        name: "sentinel".to_string(),
        image: Some(image),
        command: Some(command),
        args: Some(args),
        env: None,
        ports: Some(ports),
        liveness_probe: workload::probe(&ping, 15, 10, 5, Some(6)),
        readiness_probe: workload::probe(&ping, 5, 5, 3, Some(2)),
        resources: Some(resources),
        volume_mounts: workload::data_mounts(),
    };
    let spread = controller::effective_topology_spread(
        sentinel.topology_spread_constraints.as_ref(),
        &l,
    );
    workload::stateful_set(
        &name,
        ns,
        &l,
        owner,
        sentinel.replicas,
        &sentinel.storage,
        spread,
        container,
    )
}

/// Without Sentinel every pod but the first replicates the first, which it finds
/// under its host name.
pub proof fn lemma_others_follow_first(redis: Redis, ns: Seq<char>) -> (a: Seq<char>)
    requires
        redis.spec.sentinel is None,
    ensures
        redis_script(redis, ns) == a + " $ANNOUNCE --replicaof "@ + redis.name@ + "-0"@ + "."@
            + redis.name@ + "."@ + ns + ".svc.cluster.local"@ + scripts::ORDINAL_END@,
{
    let name = redis.name@;
    let primary = first_host(name, ns);
    let flags = server_flags(
        redis.spec.persistence,
        redis.spec.resources,
        redis.spec.eviction_policy,
    );
    let parts = seq![
        scripts::ORDINAL_START@,
        name,
        "."@,
        ns,
        scripts::SERVE_AS_FIRST@,
        flags,
        scripts::SERVE_AS_OTHER@,
        flags,
    ];
    let a = text::concatenated(parts);
    lemma_concatenated_push(parts, scripts::REPLICA_OF@);
    lemma_concatenated_push(parts.push(scripts::REPLICA_OF@), primary);
    lemma_concatenated_push(
        parts.push(scripts::REPLICA_OF@).push(primary),
        scripts::ORDINAL_END@,
    );
    let all = parts.push(scripts::REPLICA_OF@).push(primary).push(scripts::ORDINAL_END@);
    assert(all =~= seq![
        scripts::ORDINAL_START@,
        name,
        "."@,
        ns,
        scripts::SERVE_AS_FIRST@,
        flags,
        scripts::SERVE_AS_OTHER@,
        flags,
        scripts::REPLICA_OF@,
        primary,
        scripts::ORDINAL_END@,
    ]);
    assert(redis_script(redis, ns) == text::concatenated(all));
    assert(redis_script(redis, ns) =~= a + " $ANNOUNCE --replicaof "@ + name + "-0"@ + "."@ + name
        + "."@ + ns + ".svc.cluster.local"@ + scripts::ORDINAL_END@);
    a
}

/// Sentinel monitors the first pod, under the name that clients ask for, and takes
/// it for down when as many agree as the quorum says.
pub proof fn lemma_sentinel_monitors(
    name: Seq<char>,
    ns: Seq<char>,
    sentinel: SentinelSpec,
) -> (r: (Seq<char>, Seq<char>))
    ensures
        sentinel_script(name, ns, sentinel) == r.0 + scripts::MONITOR@ + (
        match sentinel.master_name {
            Some(n) => n@,
            None => "mymaster"@,
        }) + " "@ + name + "-0"@ + "."@ + name + "."@ + ns + ".svc.cluster.local"@ + " 6379 "@
            + number::written(sentinel.quorum_size()) + r.1,
        r.0 == scripts::SENTINEL_START@ + name + "-sentinel"@ + "."@ + ns,
{
    let master = sentinel.master_name_view();
    let primary = first_host(name, ns);
    let quorum = number::written(sentinel.quorum_size());
    let p0 = seq![scripts::SENTINEL_START@, name + "-sentinel"@, "."@, ns];
    let p1 = p0.push(scripts::MONITOR@);
    let p2 = p1.push(master);
    let p3 = p2.push(scripts::SPACE@);
    let p4 = p3.push(primary);
    let p5 = p4.push(scripts::QUORUM_OF_PORT@);
    let p6 = p5.push(quorum);
    let p7 = p6.push(scripts::DOWN_AFTER@);
    let p8 = p7.push(master);
    let p9 = p8.push(scripts::FAILOVER_TIMEOUT@);
    let p10 = p9.push(master);
    let p11 = p10.push(scripts::PARALLEL_SYNCS@);
    let p12 = p11.push(master);
    let p13 = p12.push(scripts::SENTINEL_END@);
    let e = Seq::<Seq<char>>::empty();
    lemma_concatenated_push(e, p0[0]);
    lemma_concatenated_push(e.push(p0[0]), p0[1]);
    lemma_concatenated_push(e.push(p0[0]).push(p0[1]), p0[2]);
    lemma_concatenated_push(e.push(p0[0]).push(p0[1]).push(p0[2]), p0[3]);
    assert(e.push(p0[0]).push(p0[1]).push(p0[2]).push(p0[3]) =~= p0);
    lemma_concatenated_push(p0, scripts::MONITOR@);
    lemma_concatenated_push(p1, master);
    lemma_concatenated_push(p2, scripts::SPACE@);
    lemma_concatenated_push(p3, primary);
    lemma_concatenated_push(p4, scripts::QUORUM_OF_PORT@);
    lemma_concatenated_push(p5, quorum);
    lemma_concatenated_push(p6, scripts::DOWN_AFTER@);
    lemma_concatenated_push(p7, master);
    lemma_concatenated_push(p8, scripts::FAILOVER_TIMEOUT@);
    lemma_concatenated_push(p9, master);
    lemma_concatenated_push(p10, scripts::PARALLEL_SYNCS@);
    lemma_concatenated_push(p11, master);
    lemma_concatenated_push(p12, scripts::SENTINEL_END@);
    assert(p13 =~= seq![
        scripts::SENTINEL_START@,
        name + "-sentinel"@,
        "."@,
        ns,
        scripts::MONITOR@,
        master,
        scripts::SPACE@,
        primary,
        scripts::QUORUM_OF_PORT@,
        quorum,
        scripts::DOWN_AFTER@,
        master,
        scripts::FAILOVER_TIMEOUT@,
        master,
        scripts::PARALLEL_SYNCS@,
        master,
        scripts::SENTINEL_END@,
    ]);
    let a = scripts::SENTINEL_START@ + name + "-sentinel"@ + "."@ + ns;
    let b = scripts::DOWN_AFTER@ + master + scripts::FAILOVER_TIMEOUT@ + master
        + scripts::PARALLEL_SYNCS@ + master + scripts::SENTINEL_END@;
    assert(sentinel_script(name, ns, sentinel) == text::concatenated(p13));
    assert(text::concatenated(p0) =~= a);
    assert(text::concatenated(p13) =~= a + scripts::MONITOR@ + master + " "@ + name + "-0"@ + "."@
        + name + "."@ + ns + ".svc.cluster.local"@ + " 6379 "@ + quorum + b);
    (a, b)
}

/// The container of a server always has a memory limit, and the server is told to
/// use seven tenths of it, wherever that limit can be read. What it drops when that
/// is full comes last, and is always said.
pub proof fn lemma_flags_follow_memory(
    persistence: Option<crate::crd::redis::PersistenceSpec>,
    resources: Option<ResourcesSpec>,
    eviction: Option<crate::crd::redis::EvictionPolicy>,
    bytes: int,
)
    ensures
        ({
            let flags = server_flags(persistence, resources, eviction);
            let limits = controller::effective_limits(resources);
            let requests = controller::effective_requests(resources);
            let kept = controller::persistence_flags(persistence);
            let policy = " --maxmemory-policy "@ + (match eviction {
                Some(p) => p.redis_value(),
                None => "noeviction"@,
            });
            &&& limits.contains_key("memory"@)
            &&& crate::quantity::bytes(limits["memory"@]) == Some(bytes) ==> flags == kept
                + " --maxmemory "@ + number::written(7 * bytes / 10) + policy
            &&& crate::quantity::bytes(limits["memory"@]) is None ==> flags == kept + policy
        }),
{
    let limits = controller::effective_limits(resources);
    if let Some(u) = resources {
        controller::lemma_resources_merge_per_key(u, "memory"@);
    }
    assert(controller::default_limits().contains_key("memory"@));
    let flags = server_flags(persistence, resources, eviction);
    let kept = controller::persistence_flags(persistence);
    let policy = controller::eviction_flag(eviction);
    if crate::quantity::bytes(limits["memory"@]) == Some(bytes) {
        assert(flags =~= kept + " --maxmemory "@ + number::written(7 * bytes / 10) + policy);
    }
    if crate::quantity::bytes(limits["memory"@]) is None {
        assert(flags =~= kept + policy);
    }
}

/// The container of a data pod runs the image and the resources that the resource
/// asks for, serves the Redis port, and is asked there whether it is alive.
pub proof fn lemma_redis_container(c: Container, redis: Redis, ns: Seq<char>)
    requires
        is_redis_container(c, redis, ns),
    ensures
        c.name@ == "redis"@,
        text::opt_view(c.image) == Some(redis.spec.image@),
        objects::opt_list(c.command)->0 + objects::opt_list(c.args)->0 == seq![
            "sh"@,
            "-c"@,
            redis_script(redis, ns),
        ],
        c.ports->0@.len() == 1 && c.ports->0@[0].container_port == 6379,
        objects::opt_list(c.liveness_probe->0.exec_action->0.command) == Some(
            seq!["redis-cli"@, "ping"@],
        ),
        objects::opt_list(c.readiness_probe->0.exec_action->0.command) == Some(
            seq!["redis-cli"@, "ping"@],
        ),
        c.liveness_probe->0.initial_delay_seconds == Some(5i32),
        c.liveness_probe->0.period_seconds == Some(5i32),
        c.liveness_probe->0.timeout_seconds == Some(3i32),
        c.readiness_probe->0.initial_delay_seconds == Some(5i32),
        c.readiness_probe->0.period_seconds == Some(5i32),
        c.readiness_probe->0.timeout_seconds == Some(3i32),
        c.env->0@.len() == 1 && c.env->0@[0].name@ == "SKIP_DROP_PRIVS"@ && text::opt_view(
            c.env->0@[0].value,
        ) == Some("1"@),
        c.volume_mounts->0@.len() == 1 && c.volume_mounts->0@[0].mount_path@ == "/data"@,
{
    assert(seq!["sh"@] + seq!["-c"@, redis_script(redis, ns)] =~= seq![
        "sh"@,
        "-c"@,
        redis_script(redis, ns),
    ]);
}

/// The container of a Sentinel pod runs its own image, or that of the data pods, and
/// has the resources that are asked for it, or just enough. It serves the Sentinel
/// port, and is asked there whether it is alive: a stalled one is taken out of
/// service after 10 seconds, and restarted only after a minute.
pub proof fn lemma_sentinel_container(
    c: Container,
    redis: Redis,
    ns: Seq<char>,
    sentinel: SentinelSpec,
)
    requires
        is_sentinel_container(c, redis, ns, sentinel),
    ensures
        c.name@ == "sentinel"@,
        sentinel.image is Some ==> text::opt_view(c.image) == Some(sentinel.image->0@),
        sentinel.image is None ==> text::opt_view(c.image) == Some(redis.spec.image@),
        c.ports->0@.len() == 1 && c.ports->0@[0].container_port == 26379,
        objects::opt_list(c.liveness_probe->0.exec_action->0.command) == Some(
            seq![
                "redis-cli"@,
                "-p"@,
                number::written(c.ports->0@[0].container_port as int),
                "ping"@,
            ],
        ),
        objects::opt_list(c.readiness_probe->0.exec_action->0.command) == objects::opt_list(
            c.liveness_probe->0.exec_action->0.command,
        ),
        c.liveness_probe->0.initial_delay_seconds == Some(15i32),
        c.liveness_probe->0.failure_threshold == Some(6i32),
        c.liveness_probe->0.period_seconds == Some(10i32),
        c.liveness_probe->0.timeout_seconds == Some(5i32),
        c.readiness_probe->0.initial_delay_seconds == Some(5i32),
        c.readiness_probe->0.failure_threshold == Some(2i32),
        c.readiness_probe->0.period_seconds == Some(5i32),
        c.readiness_probe->0.timeout_seconds == Some(3i32),
        sentinel.resources matches Some(r) ==> {
            &&& objects::opt_quantities(c.resources->0.requests) == objects::opt_texts(r.requests)
            &&& objects::opt_quantities(c.resources->0.limits) == objects::opt_texts(r.limits)
        },
        sentinel.resources is None ==> {
            &&& objects::opt_quantities(c.resources->0.requests) == Some(
                Map::<Seq<char>, Seq<char>>::empty().insert("cpu"@, "50m"@).insert(
                    "memory"@,
                    "64Mi"@,
                ),
            )
            &&& objects::opt_quantities(c.resources->0.limits) == Some(
                Map::<Seq<char>, Seq<char>>::empty().insert("memory"@, "128Mi"@),
            )
        },
{
}

} // verus!
