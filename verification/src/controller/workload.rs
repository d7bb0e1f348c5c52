//! Services and stateful sets, as far as all of them are built alike.

use vstd::prelude::*;

use super::meta_is;
use crate::crd::redis::{RetentionSpec, StorageSpec};
use crate::objects;
use crate::objects::{
    Container, ContainerPort, EnvVar, ExecAction, IntOrString, ObjectMeta, OwnerReference,
    PersistentVolumeClaim, PersistentVolumeClaimSpec, PodSpec, PodTemplateSpec, Probe, Quantity,
    Service, ServicePort, ServiceSpec, StatefulSet,
    StatefulSetPersistentVolumeClaimRetentionPolicy, StatefulSetSpec, TopologySpreadConstraint,
    Volume, VolumeMount,
};
use crate::str_map;
use crate::str_map::StrMap;
use crate::text;

verus! {

pub const REDIS_PORT: i32 = 6379;

pub const SENTINEL_PORT: i32 = 26379;

pub const CLUSTER_BUS_PORT: i32 = 16379;

/// The volume that is mounted at `/data`.
pub const DATA_VOLUME: &'static str = "data";

/// Whether `p` is the port `number`, served over TCP under `name`.
pub open spec fn is_service_port(p: ServicePort, name: Seq<char>, number: i32) -> bool {
    &&& text::opt_view(p.name) == Some(name)
    &&& p.port == number
    &&& p.target_port == Some(IntOrString::Int(number))
    &&& text::opt_view(p.protocol) == Some("TCP"@)
}

/// The port `number`, served over TCP under `name`.
pub fn service_port(name: &str, number: i32) -> (p: ServicePort)
    ensures
        is_service_port(p, name@, number),
{
    ServicePort {
        name: Some(name.to_string()),
        port: number,
        target_port: Some(IntOrString::Int(number)),
        protocol: Some("TCP".to_string()),
    }
}

/// Whether `s` serves the pods that carry `selector`. A headless service has no
/// address of its own, and lists pods before they are ready.
pub open spec fn is_service(
    s: Service,
    name: Seq<char>,
    ns: Seq<char>,
    labels: Map<Seq<char>, Seq<char>>,
    owner: OwnerReference,
    selector: Map<Seq<char>, Seq<char>>,
    headless: bool,
) -> bool {
    &&& meta_is(s.metadata, name, ns, labels, owner)
    &&& s.spec is Some
    &&& objects::opt_texts(s.spec->0.selector) == Some(selector)
    &&& s.spec->0.ports is Some
    &&& text::opt_view(s.spec->0.cluster_ip) == (if headless {
        Some("None"@)
    } else {
        None
    })
    &&& s.spec->0.publish_not_ready_addresses == (if headless {
        Some(true)
    } else {
        None
    })
}

/// Whether `s` has one port, the Redis or Sentinel one.
pub open spec fn has_one_port(s: Service, name: Seq<char>, number: i32) -> bool {
    &&& s.spec->0.ports->0@.len() == 1
    &&& is_service_port(s.spec->0.ports->0@[0], name, number)
}

/// A service of the pods that carry `selector`.
pub fn service(
    metadata: ObjectMeta,
    selector: StrMap<String>,
    ports: Vec<ServicePort>,
    headless: bool,
) -> (s: Service)
    ensures
        s.metadata == metadata,
        s.spec is Some,
        s.spec->0.selector == Some(selector),
        s.spec->0.ports == Some(ports),
        text::opt_view(s.spec->0.cluster_ip) == (if headless {
            Some("None"@)
        } else {
            None
        }),
        s.spec->0.publish_not_ready_addresses == (if headless {
            Some(true)
        } else {
            None
        }),
{
    Service {
        metadata,
        spec: Some(
            ServiceSpec {
                cluster_ip: if headless {
                    Some("None".to_string())
                } else {
                    None
                },
                selector: Some(selector),
                ports: Some(ports),
                publish_not_ready_addresses: if headless {
                    Some(true)
                } else {
                    None
                },
            },
        ),
    }
}

/// Whether `p` is the port `number` of a container, under `name`.
pub open spec fn is_container_port(p: ContainerPort, name: Seq<char>, number: i32) -> bool {
    &&& text::opt_view(p.name) == Some(name)
    &&& p.container_port == number
    &&& text::opt_view(p.protocol) == Some("TCP"@)
}

/// The port `number` of a container, under `name`.
pub fn container_port(name: &str, number: i32) -> (p: ContainerPort)
    ensures
        is_container_port(p, name@, number),
{
    ContainerPort {
        name: Some(name.to_string()),
        container_port: number,
        protocol: Some("TCP".to_string()),
    }
}

/// Whether `p` runs `argv` with these timings.
pub open spec fn is_probe(
    p: Option<Probe>,
    argv: Seq<Seq<char>>,
    delay: i32,
    period: i32,
    timeout: i32,
    failures: Option<i32>,
) -> bool {
    &&& p is Some
    &&& p->0.exec_action is Some
    &&& objects::opt_list(p->0.exec_action->0.command) == Some(argv)
    &&& p->0.initial_delay_seconds == Some(delay)
    &&& p->0.period_seconds == Some(period)
    &&& p->0.timeout_seconds == Some(timeout)
    &&& p->0.failure_threshold == failures
}

/// A command line as the command and its arguments.
pub fn command_and_args(line: Vec<String>) -> (r: (Vec<String>, Vec<String>))
    requires
        line.len() > 0,
    ensures
        text::owned_views(r.0@) == text::owned_views(line@).take(1),
        text::owned_views(r.1@) == text::owned_views(line@).skip(1),
{
    let ghost all = text::owned_views(line@);
    let mut args = line;
    let first = args.remove(0);
    let command: Vec<String> = vec![first];
    assert(text::owned_views(command@) =~= all.take(1));
    assert(text::owned_views(args@) =~= all.skip(1));
    (command, args)
}

/// A probe that runs `argv` with these timings.
pub fn probe(argv: &Vec<&str>, delay: i32, period: i32, timeout: i32, failures: Option<i32>) -> (p:
    Option<Probe>)
    ensures
        is_probe(p, text::views(argv@), delay, period, timeout, failures),
{
    Some(
        Probe {
            exec_action: Some(ExecAction { command: Some(text::own_all(argv)) }),
            failure_threshold: failures,
            initial_delay_seconds: Some(delay),
            period_seconds: Some(period),
            timeout_seconds: Some(timeout),
        },
    )
}

/// Whether `m` mounts the data volume at `/data` and nothing else.
pub open spec fn mounts_data(m: Option<Vec<VolumeMount>>) -> bool {
    &&& m is Some
    &&& m->0@.len() == 1
    &&& m->0@[0].name@ == DATA_VOLUME@
    &&& m->0@[0].mount_path@ == "/data"@
}

/// The mount of the data volume at `/data`. It is there whether or not there is
/// a volume claim: without one it is an empty directory, which still outlives
/// the container.
pub fn data_mounts() -> (m: Option<Vec<VolumeMount>>)
    ensures
        mounts_data(m),
{
    Some(
        vec![
            VolumeMount { name: DATA_VOLUME.to_string(), mount_path: "/data".to_string() },
        ],
    )
}

/// Whether `env` is the one variable that keeps the image's entrypoint from
/// dropping privileges. It would do so without owning the files on the volume.
pub open spec fn keeps_privileges(env: Option<Vec<EnvVar>>) -> bool {
    &&& env is Some
    &&& env->0@.len() == 1
    &&& env->0@[0].name@ == "SKIP_DROP_PRIVS"@
    &&& text::opt_view(env->0@[0].value) == Some("1"@)
}

/// The variable that keeps the image's entrypoint from dropping privileges.
pub fn entrypoint_skip_drop_privs() -> (e: EnvVar)
    ensures
        e.name@ == "SKIP_DROP_PRIVS"@,
        text::opt_view(e.value) == Some("1"@),
{
    EnvVar { name: "SKIP_DROP_PRIVS".to_string(), value: Some("1".to_string()) }
}

/// Whether `c` claims the volume that `storage` describes.
pub open spec fn is_data_claim(c: PersistentVolumeClaim, storage: StorageSpec) -> bool {
    &&& text::opt_view(c.metadata.name) == Some(DATA_VOLUME@)
    &&& c.metadata.namespace is None
    &&& c.metadata.labels is None
    &&& c.metadata.owner_references is None
    &&& c.spec is Some
    &&& objects::opt_list(c.spec->0.access_modes) == Some(seq!["ReadWriteOnce"@])
    &&& objects::opt_quantities(c.spec->0.requests) == Some(map!["storage"@ => storage.size@])
    &&& c.spec->0.storage_class_name == storage.storage_class
}

/// Whether `/data` is backed as `storage` says: by a claim, and otherwise by an
/// empty directory.
pub open spec fn backs_data(
    claims: Option<Vec<PersistentVolumeClaim>>,
    volumes: Option<Vec<Volume>>,
    storage: Option<StorageSpec>,
) -> bool {
    match storage {
        Some(s) => {
            &&& volumes is None
            &&& claims is Some
            &&& claims->0@.len() == 1
            &&& is_data_claim(claims->0@[0], s)
        },
        None => {
            &&& claims is None
            &&& volumes is Some
            &&& volumes->0@.len() == 1
            &&& volumes->0@[0].name@ == DATA_VOLUME@
            &&& volumes->0@[0].empty_dir
        },
    }
}

/// What backs `/data`.
pub fn data_backing(storage: &Option<StorageSpec>) -> (r: (
    Option<Vec<PersistentVolumeClaim>>,
    Option<Vec<Volume>>,
))
    ensures
        backs_data(r.0, r.1, *storage),
{
    match storage {
        Some(s) => {
            let mut requests: StrMap<Quantity> = StrMap::new();
            requests.insert("storage".to_string(), Quantity(s.size.clone()));
            assert(objects::quantities(requests) =~= map!["storage"@ => s.size@]);
            let modes: Vec<String> = vec!["ReadWriteOnce".to_string()];
            assert(text::owned_views(modes@) =~= seq!["ReadWriteOnce"@]);
            let claim = PersistentVolumeClaim {
                metadata: ObjectMeta {
                    name: Some(DATA_VOLUME.to_string()),
                    namespace: None,
                    labels: None,
                    owner_references: None,
                },
                spec: Some(
                    PersistentVolumeClaimSpec {
                        access_modes: Some(modes),
                        requests: Some(requests),
                        storage_class_name: objects::clone_opt(&s.storage_class),
                    },
                ),
            };
            (Some(vec![claim]), None)
        },
        None => (
            None,
            Some(vec![Volume { name: DATA_VOLUME.to_string(), empty_dir: true }]),
        ),
    }
}

/// Whether `r` is what `storage` says should become of volumes.
pub open spec fn is_retention(
    r: Option<StatefulSetPersistentVolumeClaimRetentionPolicy>,
    storage: Option<StorageSpec>,
) -> bool {
    match storage {
        Some(StorageSpec { retention: Some(RetentionSpec { when_scaled, when_deleted }), .. }) => {
            &&& r is Some
            &&& r->0.when_scaled == when_scaled
            &&& r->0.when_deleted == when_deleted
        },
        _ => r is None,
    }
}

/// What should become of volumes.
pub fn retention_policy(storage: &Option<StorageSpec>) -> (r: Option<
    StatefulSetPersistentVolumeClaimRetentionPolicy,
>)
    ensures
        is_retention(r, *storage),
{
    match storage {
        Some(s) => match &s.retention {
            Some(r) => Some(
                StatefulSetPersistentVolumeClaimRetentionPolicy {
                    when_deleted: objects::clone_opt(&r.when_deleted),
                    when_scaled: objects::clone_opt(&r.when_scaled),
                },
            ),
            None => None,
        },
        None => None,
    }
}

/// Whether `s` runs `replicas` pods of one container behind the headless service
/// of its own name. It selects the labels that its pods carry, spreads the pods
/// as `spread` says and backs `/data` as `storage` says. Between two pods of a
/// rolling update it waits until one has been ready for a while, so that a
/// failover can complete.
pub open spec fn is_stateful_set(
    s: StatefulSet,
    name: Seq<char>,
    ns: Seq<char>,
    labels: Map<Seq<char>, Seq<char>>,
    owner: OwnerReference,
    replicas: int,
    storage: Option<StorageSpec>,
    spread: Option<Seq<objects::SpreadView>>,
) -> bool {
    &&& meta_is(s.metadata, name, ns, labels, owner)
    &&& s.spec is Some
    &&& s.spec->0.replicas is Some
    &&& s.spec->0.replicas->0 == replicas
    &&& text::opt_view(s.spec->0.service_name) == Some(name)
    &&& s.spec->0.selector@ == objects::selects(labels)
    &&& s.spec->0.min_ready_seconds == Some(10i32)
    &&& is_retention(s.spec->0.persistent_volume_claim_retention_policy, storage)
    &&& s.spec->0.template.metadata is Some
    &&& s.spec->0.template.metadata->0.name is None
    &&& s.spec->0.template.metadata->0.namespace is None
    &&& s.spec->0.template.metadata->0.owner_references is None
    &&& objects::opt_texts(s.spec->0.template.metadata->0.labels) == Some(labels)
    &&& s.spec->0.template.spec is Some
    &&& s.spec->0.template.spec->0.containers@.len() == 1
    &&& objects::opt_spreads(s.spec->0.template.spec->0.topology_spread_constraints) == spread
    &&& backs_data(
        s.spec->0.volume_claim_templates,
        s.spec->0.template.spec->0.volumes,
        storage,
    )
}

/// The container of a stateful set.
pub open spec fn container_of(s: StatefulSet) -> Container {
    s.spec->0.template.spec->0.containers@[0]
}

/// A stateful set of pods of one container.
pub fn stateful_set(
    name: &str,
    ns: &str,
    labels: &StrMap<String>,
    owner: OwnerReference,
    replicas: i32,
    storage: &Option<StorageSpec>,
    spread: Option<Vec<TopologySpreadConstraint>>,
    container: Container,
) -> (s: StatefulSet)
    ensures
        is_stateful_set(
            s,
            name@,
            ns@,
            str_map::texts(*labels),
            owner,
            replicas as int,
            *storage,
            objects::opt_spreads(spread),
        ),
        container_of(s) == container,
{
    let (claims, volumes) = data_backing(storage);
    StatefulSet {
        metadata: super::object_meta(name, ns, labels, owner),
        spec: Some(
            StatefulSetSpec {
                replicas: Some(replicas),
                service_name: Some(name.to_string()),
                selector: super::selector_of(labels),
                template: PodTemplateSpec {
                    metadata: Some(
                        ObjectMeta {
                            name: None,
                            namespace: None,
                            labels: Some(labels.clone()),
                            owner_references: None,
                        },
                    ),
                    spec: Some(
                        PodSpec {
                            containers: vec![container],
                            topology_spread_constraints: spread,
                            volumes,
                        },
                    ),
                },
                min_ready_seconds: Some(10),
                volume_claim_templates: claims,
                persistent_volume_claim_retention_policy: retention_policy(storage),
            },
        ),
    }
}

/// What a budget over a workload selects is what its pods carry.
pub proof fn lemma_budget_selects_pods(
    s: StatefulSet,
    p: objects::PodDisruptionBudget,
    name: Seq<char>,
    ns: Seq<char>,
    labels: Map<Seq<char>, Seq<char>>,
    owner: OwnerReference,
    replicas: int,
    storage: Option<StorageSpec>,
    spread: Option<Seq<objects::SpreadView>>,
    spec: crate::crd::redis::PodDisruptionBudgetSpec,
)
    requires
        is_stateful_set(s, name, ns, labels, owner, replicas, storage, spread),
        super::is_pdb(p, name, ns, labels, owner, spec),
    ensures
        objects::opt_texts(s.spec->0.template.metadata->0.labels)
            == p.spec->0.selector->0@.match_labels,
        p.spec->0.selector->0@ == s.spec->0.selector@,
{
}

/// A service hands what comes to a port on to the port of that number of the
/// container, over the same protocol.
pub proof fn lemma_ports_meet(p: ServicePort, c: ContainerPort, name: Seq<char>, number: i32)
    requires
        is_service_port(p, name, number),
        is_container_port(c, name, number),
    ensures
        p.port == number,
        p.target_port == Some(IntOrString::Int(c.container_port)),
        text::opt_view(p.name) == text::opt_view(c.name),
        text::opt_view(p.name) == Some(name),
        text::opt_view(p.protocol) == Some("TCP"@),
        text::opt_view(c.protocol) == Some("TCP"@),
{
}

/// What is mounted at `/data` is there under the same name: a claim of the size and
/// class that the user asks for, and otherwise a directory that starts empty. There
/// is never both.
pub proof fn lemma_mount_is_backed(
    m: Option<Vec<VolumeMount>>,
    claims: Option<Vec<PersistentVolumeClaim>>,
    volumes: Option<Vec<Volume>>,
    storage: Option<StorageSpec>,
)
    requires
        mounts_data(m),
        backs_data(claims, volumes, storage),
    ensures
        m->0@.len() == 1,
        m->0@[0].mount_path@ == "/data"@,
        claims is Some <==> storage is Some,
        volumes is Some <==> storage is None,
        storage matches Some(s) ==> {
            let c = claims->0@[0];
            &&& claims->0@.len() == 1
            &&& text::opt_view(c.metadata.name) == Some(m->0@[0].name@)
            &&& objects::opt_quantities(c.spec->0.requests) == Some(
                Map::<Seq<char>, Seq<char>>::empty().insert("storage"@, s.size@),
            )
            &&& c.spec->0.storage_class_name == s.storage_class
            &&& objects::opt_list(c.spec->0.access_modes) == Some(seq!["ReadWriteOnce"@])
        },
        storage is None ==> volumes->0@.len() == 1 && volumes->0@[0].name@ == m->0@[0].name@
            && volumes->0@[0].empty_dir,
{
}

/// Volumes outlive their set, or not, as the user says for either occasion; without
/// a word of the user nothing is said.
pub proof fn lemma_retention_is_asked(
    r: Option<StatefulSetPersistentVolumeClaimRetentionPolicy>,
    storage: Option<StorageSpec>,
)
    requires
        is_retention(r, storage),
    ensures
        r is Some <==> storage is Some && storage->0.retention is Some,
        r matches Some(p) ==> p.when_scaled == storage->0.retention->0.when_scaled
            && p.when_deleted == storage->0.retention->0.when_deleted,
{
}

/// A set runs as many pods as it is to, behind the service of its own name. The
/// pods that it takes for its own are those that it makes, and its labels and theirs
/// are the same.
pub proof fn lemma_set_is(
    s: StatefulSet,
    name: Seq<char>,
    ns: Seq<char>,
    labels: Map<Seq<char>, Seq<char>>,
    owner: OwnerReference,
    replicas: int,
    storage: Option<StorageSpec>,
    spread: Option<Seq<objects::SpreadView>>,
)
    requires
        is_stateful_set(s, name, ns, labels, owner, replicas, storage, spread),
    ensures
        text::opt_view(s.metadata.name) == Some(name),
        text::opt_view(s.metadata.namespace) == Some(ns),
        s.metadata.owner_references is Some && s.metadata.owner_references->0@ == seq![owner],
        objects::opt_texts(s.metadata.labels) == Some(labels),
        s.spec->0.replicas is Some && s.spec->0.replicas->0 == replicas,
        text::opt_view(s.spec->0.service_name) == text::opt_view(s.metadata.name),
        s.spec->0.selector@.match_labels == objects::opt_texts(
            s.spec->0.template.metadata->0.labels,
        ),
        s.spec->0.selector@.match_labels == Some(labels),
        s.spec->0.min_ready_seconds == Some(10i32),
        objects::opt_spreads(s.spec->0.template.spec->0.topology_spread_constraints) == spread,
{
}

/// A headless service has no address, and lists pods that are not ready; any other
/// has one, and lists only those that are.
pub proof fn lemma_service_is(
    s: Service,
    name: Seq<char>,
    ns: Seq<char>,
    labels: Map<Seq<char>, Seq<char>>,
    owner: OwnerReference,
    selector: Map<Seq<char>, Seq<char>>,
    headless: bool,
)
    requires
        is_service(s, name, ns, labels, owner, selector, headless),
    ensures
        text::opt_view(s.metadata.name) == Some(name),
        text::opt_view(s.metadata.namespace) == Some(ns),
        s.metadata.owner_references is Some && s.metadata.owner_references->0@ == seq![owner],
        objects::opt_texts(s.metadata.labels) == Some(labels),
        objects::opt_texts(s.spec->0.selector) == Some(selector),
        headless ==> text::opt_view(s.spec->0.cluster_ip) == Some("None"@)
            && s.spec->0.publish_not_ready_addresses == Some(true),
        !headless ==> s.spec->0.cluster_ip is None
            && s.spec->0.publish_not_ready_addresses is None,
{
}

} // verus!
