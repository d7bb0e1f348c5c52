//! The reconciliation of a `Redis` resource: what is done, in which order, and
//! what is reported.

use vstd::prelude::*;

use super::builders;
use super::observe;
use crate::controller;
use crate::controller::redis_cluster::command;
use crate::controller::redis_cluster::command::{Command, CommandView};
use crate::controller::workload;
use crate::controller::{EventNote, EventType, PdbPlan, PdbRequest};
use crate::crd::redis::{PodDisruptionBudgetSpec, Redis, RedisStatus, SentinelSpec};
use crate::error::Error;
use crate::number;
use crate::objects::{OwnerReference, Service, StatefulSet};
use crate::text;

verus! {

/// The namespace and owner reference of a resource, without which it cannot be
/// reconciled.
pub fn identity(namespace: Option<String>, owner: Option<OwnerReference>) -> (r: Result<
    (String, OwnerReference),
    Error,
>)
    ensures
        match r {
            Ok((ns, o)) => namespace == Some(ns) && owner == Some(o),
            Err(Error::MissingMetadata(field)) => {
                ||| namespace is None && field@ == "namespace"@
                ||| namespace is Some && owner is None && field@ == "uid"@
            },
            Err(_) => false,
        },
{
    match namespace {
        None => Err(Error::MissingMetadata("namespace")),
        Some(ns) => match owner {
            None => Err(Error::MissingMetadata("uid")),
            Some(o) => Ok((ns, o)),
        },
    }
}

/// Something that is done to the objects of a resource.
#[derive(Debug, PartialEq, Eq)]
pub enum Operation {
    ApplyService(Service),
    ApplyStatefulSet(StatefulSet),
    /// Carry out what was decided about the budget with this name.
    SettlePdb { name: String, plan: PdbPlan },
    Emit(EventNote),
    /// Delete an object; that it is already gone is fine.
    DeleteService(String),
    DeleteStatefulSet(String),
    DeletePdb(String),
}

/// What is done for a resource before its pods are looked at, and what became of
/// its budgets.
#[derive(Debug, PartialEq, Eq)]
pub struct RedisPlan {
    pub operations: Vec<Operation>,
    pub refused: bool,
}

/// Whether everything that is computed from a resource fits its type.
pub open spec fn is_plannable(redis: Redis) -> bool {
    &&& redis.spec.replicas > i32::MIN
    &&& redis.spec.pod_disruption_budget matches Some(b) ==> controller::budget_fits(
        b,
        redis.spec.replicas,
    )
    &&& redis.spec.sentinel matches Some(s) ==> {
        &&& s.replicas - s.survivors() >= i32::MIN
        &&& s.pod_disruption_budget matches Some(b) ==> controller::budget_fits(b, s.replicas)
    }
}

/// Whether everything that is computed from a resource fits its type.
pub fn can_plan(redis: &Redis) -> (b: bool)
    ensures
        b == is_plannable(*redis),
{
    if redis.spec.replicas == i32::MIN {
        return false;
    }
    if let Some(b) = &redis.spec.pod_disruption_budget {
        if !controller::is_budget_computable(b, redis.spec.replicas) {
            return false;
        }
    }
    if let Some(s) = &redis.spec.sentinel {
        if (s.replicas as i64) - (s.min_available() as i64) < i32::MIN as i64 {
            return false;
        }
        if let Some(b) = &s.pod_disruption_budget {
            if !controller::is_budget_computable(b, s.replicas) {
                return false;
            }
        }
    }
    true
}

/// Whether `b` is the budget asked for, or the default one of the data pods.
pub open spec fn is_desired_redis_pdb(b: Option<PodDisruptionBudgetSpec>, redis: Redis) -> bool {
    match redis.spec.pod_disruption_budget {
        Some(u) => b == Some(u),
        None => {
            &&& b is Some <==> redis.spec.replicas >= 2
            &&& b matches Some(d) ==> {
                &&& d.min_available is None
                &&& d.max_unavailable == Some(crate::objects::IntOrString::Int(1))
                &&& text::opt_view(d.unhealthy_pod_eviction_policy) == Some("AlwaysAllow"@)
            }
        },
    }
}

/// Whether `b` is the budget asked for, or the default one of the Sentinel pods.
pub open spec fn is_desired_sentinel_pdb(
    b: Option<PodDisruptionBudgetSpec>,
    s: SentinelSpec,
) -> bool {
    match s.pod_disruption_budget {
        Some(u) => b == Some(u),
        None => {
            &&& b is Some <==> s.replicas >= 3
            &&& b matches Some(d) ==> {
                &&& d.min_available is Some
                &&& d.min_available->0 is Int
                &&& d.min_available->0->Int_0 == s.survivors()
                &&& d.max_unavailable is None
                &&& text::opt_view(d.unhealthy_pod_eviction_policy) == Some("AlwaysAllow"@)
            }
        },
    }
}

/// Whether `plan` is what is decided about the budget `desired` over `total` pods
/// that carry `labels`.
pub open spec fn is_pdb_plan(
    plan: PdbPlan,
    desired: Option<PodDisruptionBudgetSpec>,
    total: int,
    safe: int,
    name: Seq<char>,
    ns: Seq<char>,
    labels: Map<Seq<char>, Seq<char>>,
    owner: OwnerReference,
) -> bool {
    &&& plan.verdict@ == controller::desired_verdict(desired, total, safe)
    &&& controller::is_verdict_event(plan.event, plan.verdict@)
    &&& match plan.action {
        controller::PdbAction::Delete => plan.verdict@ is Empty,
        controller::PdbAction::Keep => plan.verdict@.refuses(),
        controller::PdbAction::Apply(p) => plan.verdict@.applies() && desired is Some
            && controller::is_pdb(p, name, ns, labels, owner, desired->0),
    }
}

/// What becomes of the budget of the data pods.
pub open spec fn is_redis_pdb_plan(plan: PdbPlan, redis: Redis, ns: Seq<char>, owner: OwnerReference) -> bool {
    exists|desired: Option<PodDisruptionBudgetSpec>| #[trigger]
        is_desired_redis_pdb(desired, redis) && is_pdb_plan(
            plan,
            desired,
            redis.spec.replicas as int,
            redis.spec.slack(),
            redis.name@,
            ns,
            builders::data_labels(redis.name@),
            owner,
        )
}

/// What becomes of the budget of the Sentinel pods.
pub open spec fn is_sentinel_pdb_plan(
    plan: PdbPlan,
    redis: Redis,
    s: SentinelSpec,
    ns: Seq<char>,
    owner: OwnerReference,
) -> bool {
    exists|desired: Option<PodDisruptionBudgetSpec>| #[trigger]
        is_desired_sentinel_pdb(desired, s) && is_pdb_plan(
            plan,
            desired,
            s.replicas as int,
            s.slack(),
            redis.name@ + "-sentinel"@,
            ns,
            builders::sentinel_labels_of(redis.name@),
            owner,
        )
}

/// Whether a Sentinel set is too small for the automatic budget, and the user
/// asks for none.
pub open spec fn lacks_sentinels(s: SentinelSpec) -> bool {
    s.pod_disruption_budget is None && s.replicas < 3
}

/// What is said of a Sentinel set that is too small.
pub open spec fn lacking_note(replicas: int) -> Seq<char> {
    "sentinel.replicas is "@ + number::written(replicas)
        + "; failover needs at least 3 to survive losing one sentinel. No PodDisruptionBudget was created, because minAvailable would equal the replica count and block every node drain."@
}

/// Whether `e` is the event about a Sentinel set that is too small.
pub open spec fn is_lacking_event(e: EventNote, replicas: int) -> bool {
    &&& e.type_ == EventType::Warning
    &&& e.reason@ == "SentinelNotHighlyAvailable"@
    &&& e.note@ == lacking_note(replicas)
    &&& e.action@ == controller::PDB_EVENT_ACTION@
}

/// Whether `ops` begins with what is done for the data pods. The budget comes
/// behind the stateful set: were it refused, the workload would be there all the
/// same.
pub open spec fn are_data_operations(
    ops: Seq<Operation>,
    redis: Redis,
    ns: Seq<char>,
    owner: OwnerReference,
) -> bool {
    let name = redis.name@;
    let l = builders::data_labels(name);
    &&& ops.len() >= 4
    &&& ops[0] is ApplyService
    &&& workload::is_service(ops[0]->ApplyService_0, name, ns, l, owner, l, true)
    &&& workload::has_one_port(ops[0]->ApplyService_0, "redis"@, workload::REDIS_PORT)
    &&& ops[1] is ApplyStatefulSet
    &&& workload::is_stateful_set(
        ops[1]->ApplyStatefulSet_0,
        name,
        ns,
        l,
        owner,
        redis.spec.replicas as int,
        redis.spec.storage,
        controller::effective_spread(redis.spec.topology_spread_constraints, l),
    )
    &&& builders::is_redis_container(
        workload::container_of(ops[1]->ApplyStatefulSet_0),
        redis,
        ns,
    )
    &&& ops[2] is ApplyService
    &&& workload::is_service(
        ops[2]->ApplyService_0,
        name + "-replicas"@,
        ns,
        l,
        owner,
        builders::replicas_selector(name),
        false,
    )
    &&& workload::has_one_port(ops[2]->ApplyService_0, "redis"@, workload::REDIS_PORT)
    &&& ops[3] is SettlePdb
    &&& ops[3]->SettlePdb_name@ == name
    &&& is_redis_pdb_plan(ops[3]->SettlePdb_plan, redis, ns, owner)
}

/// Whether `ops` are what is done for the Sentinel pods, which are wanted.
pub open spec fn are_sentinel_operations(
    ops: Seq<Operation>,
    redis: Redis,
    s: SentinelSpec,
    ns: Seq<char>,
    owner: OwnerReference,
) -> bool {
    let name = redis.name@ + "-sentinel"@;
    let l = builders::sentinel_labels_of(redis.name@);
    &&& ops.len() == (if lacks_sentinels(s) {
        4int
    } else {
        3
    })
    &&& ops[0] is ApplyService
    &&& workload::is_service(ops[0]->ApplyService_0, name, ns, l, owner, l, true)
    &&& workload::has_one_port(ops[0]->ApplyService_0, "sentinel"@, workload::SENTINEL_PORT)
    &&& ops[1] is ApplyStatefulSet
    &&& workload::is_stateful_set(
        ops[1]->ApplyStatefulSet_0,
        name,
        ns,
        l,
        owner,
        s.replicas as int,
        s.storage,
        controller::effective_spread(s.topology_spread_constraints, l),
    )
    &&& builders::is_sentinel_container(
        workload::container_of(ops[1]->ApplyStatefulSet_0),
        redis,
        ns,
        s,
    )
    &&& lacks_sentinels(s) ==> ops[2] is Emit && is_lacking_event(
        ops[2]->Emit_0,
        s.replicas as int,
    )
    &&& ops.last() is SettlePdb
    &&& ops.last()->SettlePdb_name@ == name
    &&& is_sentinel_pdb_plan(ops.last()->SettlePdb_plan, redis, s, ns, owner)
}

/// Whether `ops` removes what an earlier wish for Sentinel left behind.
pub open spec fn are_sentinel_removals(ops: Seq<Operation>, name: Seq<char>) -> bool {
    &&& ops.len() == 3
    &&& ops[0] is DeleteService
    &&& ops[0]->DeleteService_0@ == name + "-sentinel"@
    &&& ops[1] is DeleteStatefulSet
    &&& ops[1]->DeleteStatefulSet_0@ == name + "-sentinel"@
    &&& ops[2] is DeletePdb
    &&& ops[2]->DeletePdb_0@ == name + "-sentinel"@
}

/// Whether a budget of the resource is refused.
pub open spec fn refuses_budget(ops: Seq<Operation>) -> bool {
    exists|i: int|
        0 <= i < ops.len() && (#[trigger] ops[i]) is SettlePdb
            && ops[i]->SettlePdb_plan.verdict@.refuses()
}

/// What is decided about the budget of the data pods.
fn plan_redis_pdb(redis: &Redis, ns: &str, owner: OwnerReference) -> (plan: PdbPlan)
    requires
        is_plannable(*redis),
    ensures
        is_redis_pdb_plan(plan, *redis, ns@, owner),
{
    let desired = match &redis.spec.pod_disruption_budget {
        Some(b) => Some(b.clone()),
        None => builders::default_redis_pdb(&redis.spec),
    };
    assert(is_desired_redis_pdb(desired, *redis));
    let l = builders::labels(&redis.name);
    controller::reconcile_pdb(
        PdbRequest {
            name: &redis.name,
            ns,
            labels: &l,
            owner,
            desired,
            total: redis.spec.replicas,
            safe_max_unavailable: redis.spec.safe_max_unavailable(),
        },
    )
}

/// What is decided about the budget of the Sentinel pods.
fn plan_sentinel_pdb(redis: &Redis, s: &SentinelSpec, ns: &str, owner: OwnerReference) -> (plan:
    PdbPlan)
    requires
        s.replicas - s.survivors() >= i32::MIN,
        s.pod_disruption_budget matches Some(b) ==> controller::budget_fits(b, s.replicas),
    ensures
        is_sentinel_pdb_plan(plan, *redis, *s, ns@, owner),
{
    let desired = match &s.pod_disruption_budget {
        Some(b) => Some(b.clone()),
        None => builders::default_sentinel_pdb(s),
    };
    assert(is_desired_sentinel_pdb(desired, *s));
    let l = builders::sentinel_labels(&redis.name);
    let name = builders::sentinel_sts_name(&redis.name);
    controller::reconcile_pdb(
        PdbRequest {
            name: &name,
            ns,
            labels: &l,
            owner,
            desired,
            total: s.replicas,
            safe_max_unavailable: s.safe_max_unavailable(),
        },
    )
}

/// The event about a Sentinel set that is too small.
fn lacking_event(replicas: i32) -> (e: EventNote)
    ensures
        is_lacking_event(e, replicas as int),
{
    let mut note = "sentinel.replicas is ".to_string();
    note.append(&number::i32_text(replicas));
    note.append(
        "; failover needs at least 3 to survive losing one sentinel. No PodDisruptionBudget was created, because minAvailable would equal the replica count and block every node drain.",
    );
    EventNote {
        type_: EventType::Warning,
        reason: "SentinelNotHighlyAvailable".to_string(),
        note,
        action: controller::PDB_EVENT_ACTION.to_string(),
    }
}

/// Plans what is done for a resource before its pods are looked at: first for the
/// data pods, then for the Sentinel pods, or their removal.
pub fn plan_redis(redis: &Redis, ns: &str, owner: OwnerReference) -> (plan: RedisPlan)
    requires
        is_plannable(*redis),
    ensures
        are_data_operations(plan.operations@, *redis, ns@, owner),
        match redis.spec.sentinel {
            Some(s) => are_sentinel_operations(
                plan.operations@.skip(4),
                *redis,
                s,
                ns@,
                owner,
            ),
            None => are_sentinel_removals(plan.operations@.skip(4), redis.name@),
        },
        plan.refused == refuses_budget(plan.operations@),
{
    let headless = builders::build_headless_service(redis, ns, owner.clone());
    let set = builders::build_redis_statefulset(redis, ns, owner.clone());
    let replicas = builders::build_replicas_service(redis, ns, owner.clone());
    let data = plan_redis_pdb(redis, ns, owner.clone());
    let mut refused = data.verdict.is_refusal();
    let mut ops: Vec<Operation> = Vec::new();
    ops.push(Operation::ApplyService(headless));
    ops.push(Operation::ApplyStatefulSet(set));
    ops.push(Operation::ApplyService(replicas));
    ops.push(Operation::SettlePdb { name: redis.name.clone(), plan: data });
    assert(refused == ops@[3]->SettlePdb_plan.verdict@.refuses());
    let ghost first = ops@;
    let name = builders::sentinel_sts_name(&redis.name);
    match &redis.spec.sentinel {
        Some(s) => {
            let svc = builders::build_sentinel_headless_service(redis, ns, owner.clone());
            let sts = builders::build_sentinel_statefulset(redis, ns, s, owner.clone());
            ops.push(Operation::ApplyService(svc));
            ops.push(Operation::ApplyStatefulSet(sts));
            if s.pod_disruption_budget.is_none() && s.replicas < 3 {
                ops.push(Operation::Emit(lacking_event(s.replicas)));
            }
            let plan = plan_sentinel_pdb(redis, s, ns, owner);
            let again = plan.verdict.is_refusal();
            ops.push(Operation::SettlePdb { name, plan });
            proof {
                let l = ops@.len() - 1;
                assert(again == ops@[l]->SettlePdb_plan.verdict@.refuses());
                assert(ops@.skip(4).last() == ops@[l]);
                assert(forall|i: int|
                    0 <= i < ops@.len() && (#[trigger] ops@[i]) is SettlePdb ==> i == 3 || i == l);
                assert(ops@[3] == first[3]);
            }
            refused = refused || again;
        },
        None => {
            ops.push(Operation::DeleteService(name.clone()));
            ops.push(Operation::DeleteStatefulSet(name.clone()));
            ops.push(Operation::DeletePdb(name));
            proof {
                assert(forall|i: int|
                    0 <= i < ops@.len() && (#[trigger] ops@[i]) is SettlePdb ==> i == 3);
                assert(ops@[3] == first[3]);
            }
        },
    }
    RedisPlan { operations: ops, refused }
}

/// In a plan every budget stands behind the stateful set that it protects.
pub proof fn lemma_budget_after_set(
    ops: Seq<Operation>,
    redis: Redis,
    ns: Seq<char>,
    owner: OwnerReference,
    i: int,
)
    requires
        are_data_operations(ops, redis, ns, owner),
        match redis.spec.sentinel {
            Some(s) => are_sentinel_operations(ops.skip(4), redis, s, ns, owner),
            None => are_sentinel_removals(ops.skip(4), redis.name@),
        },
        0 <= i < ops.len(),
        ops[i] is SettlePdb,
    ensures
        exists|j: int|
            0 <= j < i && (#[trigger] ops[j]) is ApplyStatefulSet && text::opt_view(
                ops[j]->ApplyStatefulSet_0.metadata.name,
            ) == Some(ops[i]->SettlePdb_name@),
{
    if i < 4 {
        assert(i == 3);
        assert(ops[1] is ApplyStatefulSet);
    } else {
        let rest = ops.skip(4);
        assert(rest[i - 4] == ops[i]);
        assert(rest[1] == ops[5]);
        match redis.spec.sentinel {
            Some(s) => {
                assert(i - 4 == rest.len() - 1);
                assert(ops[5] is ApplyStatefulSet);
            },
            None => {
                assert(rest[0] is DeleteService && rest[1] is DeleteStatefulSet && rest[2]
                    is DeletePdb);
            },
        }
    }
}

/// The command that asks the first sentinel for the primary.
pub open spec fn sentinel_query(name: Seq<char>, master: Seq<char>) -> CommandView {
    CommandView {
        pod: name + "-sentinel"@ + "-0"@,
        argv: seq![
            "redis-cli"@,
            "-p"@,
            "26379"@,
            "sentinel"@,
            "get-master-addr-by-name"@,
            master,
        ],
    }
}

/// The command that asks for the primary, where there is Sentinel to ask.
pub fn query_sentinel_master(redis: &Redis) -> (r: Option<Command>)
    ensures
        match redis.spec.sentinel {
            Some(s) => r matches Some(c) && c@ == sentinel_query(
                redis.name@,
                s.master_name_view(),
            ),
            None => r is None,
        },
{
    match &redis.spec.sentinel {
        None => None,
        Some(s) => {
            let mut pod = builders::sentinel_sts_name(&redis.name);
            pod.append("-0");
            let argv: Vec<&str> = vec![
                "redis-cli",
                "-p",
                "26379",
                "sentinel",
                "get-master-addr-by-name",
                s.effective_master_name(),
            ];
            let c = command::command(&pod, &argv);
            assert(text::views(argv@) =~= sentinel_query(
                redis.name@,
                s.master_name_view(),
            ).argv);
            Some(c)
        },
    }
}

/// The pod that Sentinel names as the primary in the answer `out`, or the first
/// pod where it has none yet; nothing where its answer makes no sense.
pub open spec fn answered_master(name: Seq<char>, out: Seq<char>) -> Option<Seq<char>> {
    match observe::master_addr(out) {
        Some((host, _)) => observe::pod_in(host),
        None => Some(name + "-0"@),
    }
}

/// The primary as far as it is known without looking at the live service: the
/// first pod where there is no Sentinel, and otherwise what Sentinel answered.
/// `answer` is nothing where it was not asked or did not answer; the primary is
/// then not known.
pub open spec fn known_master(redis: Redis, answer: Option<Seq<char>>) -> Option<Seq<char>> {
    if redis.spec.sentinel is None {
        Some(redis.name@ + "-0"@)
    } else {
        match answer {
            Some(out) => answered_master(redis.name@, out),
            None => None,
        }
    }
}

/// Determines the primary from the answer of Sentinel, as far as that goes.
pub fn determine_master_pod(redis: &Redis, answer: Option<&str>) -> (r: Option<String>)
    ensures
        text::opt_view(r) == known_master(*redis, text::opt_str_view(answer)),
{
    let mut first = redis.name.clone();
    first.append("-0");
    match &redis.spec.sentinel {
        None => Some(first),
        Some(_) => match answer {
            None => None,
            Some(out) => match observe::parse_sentinel_master_addr(out) {
                Some((host, _)) => observe::master_pod_from_host(&host),
                None => Some(first),
            },
        },
    }
}

/// The primary where it is not known: the pod that the live service selects, for
/// the first pod may be a replica after a failover; the first pod only where the
/// service selects none.
pub fn preserve_existing_master(name: &str, selected: Option<String>) -> (pod: String)
    ensures
        pod@ == (match selected {
            Some(s) => s@,
            None => name@ + "-0"@,
        }),
{
    match selected {
        Some(s) => s,
        None => {
            let mut first = name.to_string();
            first.append("-0");
            first
        },
    }
}

/// The primary of a resource, given the answer of Sentinel and the pod that the
/// live service selects.
pub open spec fn master_of(
    redis: Redis,
    answer: Option<Seq<char>>,
    selected: Option<Seq<char>>,
) -> Seq<char> {
    match known_master(redis, answer) {
        Some(pod) => pod,
        None => match selected {
            Some(pod) => pod,
            None => redis.name@ + "-0"@,
        },
    }
}

/// Without Sentinel the first pod is the primary. With it, the primary is the pod
/// that Sentinel names, and the first one while Sentinel knows of none. A query
/// that failed, or was answered with a host that is none, leaves the primary
/// where it was.
pub proof fn lemma_master(redis: Redis, selected: Seq<char>, out: Seq<char>)
    ensures
        redis.spec.sentinel is None ==> master_of(redis, None, Some(selected)) == redis.name@
            + "-0"@,
        redis.spec.sentinel is Some ==> {
            &&& master_of(redis, None, Some(selected)) == selected
            &&& observe::master_addr(out) is None ==> master_of(redis, Some(out), Some(selected))
                == redis.name@ + "-0"@
            &&& observe::master_addr(out) matches Some((host, _)) ==> match observe::pod_in(host) {
                Some(pod) => master_of(redis, Some(out), Some(selected)) == pod,
                None => master_of(redis, Some(out), Some(selected)) == selected,
            }
        },
{
}

/// What selects the data pods of a resource in a list of pods.
pub open spec fn pods_selector(name: Seq<char>) -> Seq<char> {
    "app.kubernetes.io/name=redis,app.kubernetes.io/instance="@ + name
}

/// What selects the data pods of a resource in a list of pods.
pub fn data_pods_selector(name: &str) -> (s: String)
    ensures
        s@ == pods_selector(name@),
{
    let mut s = "app.kubernetes.io/name=redis,app.kubernetes.io/instance=".to_string();
    s.append(name);
    s
}

/// The role of a pod while `master` is the primary.
pub open spec fn role_of(pod: Seq<char>, master: Seq<char>) -> Seq<char> {
    if pod == master {
        "master"@
    } else {
        "replica"@
    }
}

/// The role that a pod is to be labelled with; nothing where it carries that
/// label already.
pub fn role_to_set(pod: &str, current: Option<&str>, master_pod: &str) -> (r: Option<&'static str>)
    ensures
        text::opt_str_view(r) == (if text::opt_str_view(current) == Some(
            role_of(pod@, master_pod@),
        ) {
            None
        } else {
            Some(role_of(pod@, master_pod@))
        }),
{
    let role = if text::same(pod, master_pod) {
        "master"
    } else {
        "replica"
    };
    match current {
        Some(c) => if text::same(c, role) {
            None
        } else {
            Some(role)
        },
        None => Some(role),
    }
}

/// The labels of a data pod once its role is set.
pub open spec fn labelled(name: Seq<char>, pod: Seq<char>, master: Seq<char>) -> Map<
    Seq<char>,
    Seq<char>,
> {
    builders::data_labels(name).insert(builders::POD_NAME_LABEL@, pod).insert(
        builders::ROLE_LABEL@,
        role_of(pod, master),
    )
}

/// Once the roles are set, the primary service serves the primary and no other
/// data pod, and the replicas service serves every other one.
pub proof fn lemma_services_split_pods(name: Seq<char>, pod: Seq<char>, master: Seq<char>)
    ensures
        builders::selected_by(
            labelled(name, pod, master),
            builders::primary_selector(name, master),
        ) <==> pod == master,
        builders::selected_by(labelled(name, pod, master), builders::replicas_selector(name))
            <==> pod != master,
{
    reveal_strlit("app.kubernetes.io/name");
    reveal_strlit("app.kubernetes.io/instance");
    reveal_strlit("app.kubernetes.io/managed-by");
    reveal_strlit("statefulset.kubernetes.io/pod-name");
    reveal_strlit("redis-operator/role");
    reveal_strlit("master");
    reveal_strlit("replica");
    let p = builders::POD_NAME_LABEL@;
    let r = builders::ROLE_LABEL@;
    assert(p.len() == 34 && r.len() == 19);
    assert("app.kubernetes.io/name"@.len() == 22);
    assert("app.kubernetes.io/instance"@.len() == 26);
    assert("app.kubernetes.io/managed-by"@.len() == 28);
    assert("master"@.len() == 6 && "replica"@.len() == 7);
    let l = labelled(name, pod, master);
    let ps = builders::primary_selector(name, master);
    let rs = builders::replicas_selector(name);
    assert(ps.contains_key(p) && ps[p] == master && l[p] == pod);
    assert(rs.contains_key(r) && rs[r] == "replica"@ && l[r] == role_of(pod, master));
}

/// The command that asks the primary for its replication state.
pub open spec fn replication_query(pod: Seq<char>) -> CommandView {
    CommandView { pod, argv: seq!["redis-cli"@, "info"@, "replication"@] }
}

/// The command that asks the primary for its replication state.
pub fn query_connected_replicas(master_pod: &str) -> (c: Command)
    ensures
        c@ == replication_query(master_pod@),
{
    let argv: Vec<&str> = vec!["redis-cli", "info", "replication"];
    assert(text::views(argv@) =~= replication_query(master_pod@).argv);
    command::command(master_pod, &argv)
}

/// The phase of a resource. Without the protection that the user asked for it is
/// not running, even when every pod is ready.
pub open spec fn phase_of(refused: bool, ready: int, replicas: int) -> Seq<char> {
    if refused {
        "Degraded"@
    } else if ready == replicas && replicas > 0 {
        "Running"@
    } else {
        "Pending"@
    }
}

/// Whether the primary is asked how many replicas are connected: where there are
/// to be any, and a pod is ready to answer.
pub open spec fn asks_replicas(replicas: int, ready: int) -> bool {
    replicas > 1 && ready >= 1
}

/// Reports a resource: `ready` data pods; as many connected replicas as the primary
/// answered, none where it is not asked or did not answer; `sentinel_ready`
/// Sentinel pods, none without Sentinel.
pub fn redis_status(
    redis: &Redis,
    ns: &str,
    master_pod: String,
    refused: bool,
    ready: i32,
    replication: Option<&str>,
    sentinel_ready: i32,
) -> (s: RedisStatus)
    ensures
        s.ready_replicas == ready,
        text::opt_view(s.phase) == Some(
            phase_of(refused, ready as int, redis.spec.replicas as int),
        ),
        text::opt_view(s.primary_host) == (if redis.spec.replicas > 0 {
            Some(command::host_of(master_pod@, redis.name@, ns@))
        } else {
            None
        }),
        s.master_pod == Some(master_pod),
        s.connected_replicas == (match replication {
            Some(out) => if asks_replicas(redis.spec.replicas as int, ready as int) {
                observe::connected_slaves(out@)
            } else {
                0
            },
            None => 0,
        }),
        s.sentinel_replicas_ready == (if redis.spec.sentinel is Some {
            sentinel_ready
        } else {
            0
        }),
{
    let phase = if refused {
        "Degraded"
    } else if ready == redis.spec.replicas && redis.spec.replicas > 0 {
        "Running"
    } else {
        "Pending"
    };
    let primary_host = if redis.spec.replicas > 0 {
        Some(command::pod_fqdn(&master_pod, &redis.name, ns))
    } else {
        None
    };
    let asked = redis.spec.replicas > 1 && ready >= 1;
    let connected: i32 = match replication {
        Some(out) => if asked {
            observe::parse_connected_slaves(out)
        } else {
            0
        },
        None => 0,
    };
    let sentinels: i32 = if redis.spec.sentinel.is_some() {
        sentinel_ready
    } else {
        0
    };
    RedisStatus {
        ready_replicas: ready,
        phase: Some(phase.to_string()),
        primary_host,
        master_pod: Some(master_pod),
        connected_replicas: connected,
        sentinel_replicas_ready: sentinels,
    }
}

/// A budget that is refused is neither clamped nor applied: the live one is left
/// alone, and a warning says why. What is applied over 2 or more pods is the
/// budget as it was asked for, and permits no more disruption than the workload
/// survives.
pub proof fn lemma_refused_not_clamped(
    plan: PdbPlan,
    desired: Option<PodDisruptionBudgetSpec>,
    total: int,
    safe: int,
    name: Seq<char>,
    ns: Seq<char>,
    labels: Map<Seq<char>, Seq<char>>,
    owner: OwnerReference,
)
    requires
        is_pdb_plan(plan, desired, total, safe, name, ns, labels, owner),
    ensures
        plan.verdict@.refuses() ==> {
            &&& plan.action is Keep
            &&& plan.event is Some
            &&& plan.event->0.type_ == EventType::Warning
        },
        plan.action matches controller::PdbAction::Apply(p) ==> {
            &&& desired is Some
            &&& controller::is_pdb(p, name, ns, labels, owner, desired->0)
            &&& total >= 2 ==> {
                &&& controller::permitted(desired->0, total) is Ok
                &&& controller::permitted(desired->0, total)->Ok_0 <= safe
            }
        },
{
    if plan.action is Apply {
        if total >= 2 {
            controller::lemma_applied_budget_is_safe(desired->0, total, safe);
        }
    }
}

/// A resource with a budget that is refused is reported as degraded, however many
/// of its pods are ready; the live budget is left alone.
pub proof fn lemma_refused_is_degraded(
    ops: Seq<Operation>,
    redis: Redis,
    ns: Seq<char>,
    owner: OwnerReference,
    i: int,
    ready: int,
)
    requires
        are_data_operations(ops, redis, ns, owner),
        match redis.spec.sentinel {
            Some(s) => are_sentinel_operations(ops.skip(4), redis, s, ns, owner),
            None => are_sentinel_removals(ops.skip(4), redis.name@),
        },
        0 <= i < ops.len(),
        ops[i] is SettlePdb,
        ops[i]->SettlePdb_plan.verdict@.refuses(),
    ensures
        ops[i]->SettlePdb_plan.action is Keep,
        phase_of(refuses_budget(ops), ready, redis.spec.replicas as int) == "Degraded"@,
{
    if i < 4 {
        assert(i == 3);
    } else {
        let rest = ops.skip(4);
        assert(rest[i - 4] == ops[i]);
        match redis.spec.sentinel {
            Some(s) => {
                assert(i - 4 == rest.len() - 1);
            },
            None => {
                assert(rest[0] is DeleteService && rest[1] is DeleteStatefulSet && rest[2]
                    is DeletePdb);
            },
        }
    }
}

/// Where a reconciliation stands.
#[derive(Clone, Copy, Debug, PartialEq, Eq)]
pub enum Step {
    /// Carry out the operation of the plan with this index.
    Operate(usize),
    /// Ask Sentinel for the primary.
    AskSentinel,
    /// See which pod the live service selects.
    ReadSelector,
    /// Point the primary service at the primary.
    ApplyPrimary,
    /// Label the data pods with their roles.
    LabelPods,
    /// See how many data pods are ready.
    ReadReady,
    /// Ask the primary how many replicas are connected.
    AskReplicas,
    /// See how many Sentinel pods are ready.
    ReadSentinelReady,
    /// Report.
    PatchStatus,
    /// Come back after a while.
    Requeue,
}

/// What a step brought to light, as far as the next one depends on it.
#[derive(Clone, Copy, Debug, PartialEq, Eq)]
pub struct Found {
    /// The primary is known from the answer of Sentinel.
    pub master: bool,
    /// Data pods that are ready.
    pub ready: i32,
}

/// The step after the pods were looked at.
pub open spec fn step_after_replicas(redis: Redis) -> Step {
    if redis.spec.sentinel is Some {
        Step::ReadSentinelReady
    } else {
        Step::PatchStatus
    }
}

/// The step behind `step` in the reconciliation of a resource whose plan has
/// `operations` operations.
pub open spec fn step_after(step: Step, found: Found, redis: Redis, operations: int) -> Step {
    match step {
        Step::Operate(i) => if i + 1 < operations {
            Step::Operate((i + 1) as usize)
        } else if redis.spec.sentinel is Some {
            Step::AskSentinel
        } else {
            Step::ApplyPrimary
        },
        Step::AskSentinel => if found.master {
            Step::ApplyPrimary
        } else {
            Step::ReadSelector
        },
        Step::ReadSelector => Step::ApplyPrimary,
        Step::ApplyPrimary => Step::LabelPods,
        Step::LabelPods => Step::ReadReady,
        Step::ReadReady => if asks_replicas(redis.spec.replicas as int, found.ready as int) {
            Step::AskReplicas
        } else {
            step_after_replicas(redis)
        },
        Step::AskReplicas => step_after_replicas(redis),
        Step::ReadSentinelReady => Step::PatchStatus,
        Step::PatchStatus => Step::Requeue,
        Step::Requeue => Step::Requeue,
    }
}

/// Decides the step behind `step`.
pub fn next_step(step: Step, found: Found, redis: &Redis, operations: usize) -> (next: Step)
    ensures
        next == step_after(step, found, *redis, operations as int),
{
    let sentinel = redis.spec.sentinel.is_some();
    let after_replicas = if sentinel {
        Step::ReadSentinelReady
    } else {
        Step::PatchStatus
    };
    match step {
        Step::Operate(i) => if operations > 0 && i < operations - 1 {
            Step::Operate(i + 1)
        } else if sentinel {
            Step::AskSentinel
        } else {
            Step::ApplyPrimary
        },
        Step::AskSentinel => if found.master {
            Step::ApplyPrimary
        } else {
            Step::ReadSelector
        },
        Step::ReadSelector => Step::ApplyPrimary,
        Step::ApplyPrimary => Step::LabelPods,
        Step::LabelPods => Step::ReadReady,
        Step::ReadReady => if redis.spec.replicas > 1 && found.ready >= 1 {
            Step::AskReplicas
        } else {
            after_replicas
        },
        Step::AskReplicas => after_replicas,
        Step::ReadSentinelReady => Step::PatchStatus,
        Step::PatchStatus => Step::Requeue,
        Step::Requeue => Step::Requeue,
    }
}

/// How far a reconciliation has come.
pub open spec fn progress(step: Step, operations: int) -> int {
    match step {
        Step::Operate(i) => if i < operations {
            i as int
        } else {
            operations
        },
        Step::AskSentinel => operations + 1,
        Step::ReadSelector => operations + 2,
        Step::ApplyPrimary => operations + 3,
        Step::LabelPods => operations + 4,
        Step::ReadReady => operations + 5,
        Step::AskReplicas => operations + 6,
        Step::ReadSentinelReady => operations + 7,
        Step::PatchStatus => operations + 8,
        Step::Requeue => operations + 9,
    }
}

/// A reconciliation comes to its end: every step brings it further. Operations
/// are carried out one by one in the order of the plan, and none of them behind
/// anything else; the primary service is not touched before the last of them. The
/// primary is asked for its replicas exactly where the report goes by the answer.
pub proof fn lemma_steps_progress(step: Step, found: Found, redis: Redis, operations: int)
    requires
        operations >= 0,
        operations <= usize::MAX,
    ensures
        ({
            let next = step_after(step, found, redis, operations);
            &&& !(step is Requeue) ==> progress(next, operations) > progress(step, operations)
            &&& progress(next, operations) <= progress(Step::Requeue, operations)
            &&& next matches Step::Operate(j) ==> step is Operate && j == step->Operate_0 + 1
            &&& next is ApplyPrimary && step is Operate ==> step->Operate_0 + 1 >= operations
            &&& next is AskReplicas <==> step is ReadReady && redis.spec.replicas > 1
                && found.ready >= 1
            &&& next is ReadSentinelReady <==> redis.spec.sentinel is Some && (step is AskReplicas
                || step is ReadReady && !(redis.spec.replicas > 1 && found.ready >= 1))
            &&& next is AskSentinel <==> redis.spec.sentinel is Some && step is Operate
                && step->Operate_0 + 1 >= operations
            &&& next is ReadSelector <==> step is AskSentinel && !found.master
            &&& next is LabelPods <==> step is ApplyPrimary
            &&& next is ReadReady <==> step is LabelPods
            &&& next is Requeue <==> step is PatchStatus || step is Requeue
        }),
{
}

/// A resource runs exactly where all of its pods are ready, there are to be any, and
/// no budget of it is refused. It is degraded exactly where one is, and pending
/// otherwise.
pub proof fn lemma_redis_phase(refused: bool, ready: int, replicas: int)
    ensures
        phase_of(refused, ready, replicas) == "Running"@ <==> !refused && ready == replicas
            && replicas > 0,
        phase_of(refused, ready, replicas) == "Degraded"@ <==> refused,
        phase_of(refused, ready, replicas) == "Pending"@ <==> !refused && (ready != replicas
            || replicas <= 0),
{
    reveal_strlit("Running");
    reveal_strlit("Degraded");
    reveal_strlit("Pending");
    assert("Running"@[0] == 'R' && "Degraded"@[0] == 'D' && "Pending"@[0] == 'P');
}

/// Of the pods of a resource one is labelled as the primary, and every other as a
/// replica.
pub proof fn lemma_one_primary(pod: Seq<char>, master: Seq<char>)
    ensures
        role_of(pod, master) == "master"@ <==> pod == master,
        role_of(pod, master) == "replica"@ <==> pod != master,
{
    reveal_strlit("master");
    reveal_strlit("replica");
    assert("master"@.len() == 6 && "replica"@.len() == 7);
}

/// Without Sentinel the first pod is the primary, whatever was answered or is
/// selected. With it, a primary that is known of neither from the answer nor from
/// the live service is the first pod.
pub proof fn lemma_master_otherwise(
    redis: Redis,
    answer: Option<Seq<char>>,
    selected: Option<Seq<char>>,
)
    ensures
        redis.spec.sentinel is None ==> master_of(redis, answer, selected) == redis.name@ + "-0"@,
        redis.spec.sentinel is Some && answer is None ==> master_of(redis, answer, selected) == (
        match selected {
            Some(pod) => pod,
            None => redis.name@ + "-0"@,
        }),
{
}

/// The data pods are listed by two of the labels that they carry: what they are, and
/// whose.
pub proof fn lemma_listed_by_labels(name: Seq<char>)
    ensures
        ({
            let l = builders::data_labels(name);
            let a = "app.kubernetes.io/name"@;
            let b = "app.kubernetes.io/instance"@;
            &&& l.contains_key(a) && l.contains_key(b)
            &&& pods_selector(name) == a + "="@ + l[a] + ","@ + b + "="@ + l[b]
            &&& l[a] == "redis"@ && l[b] == name
        }),
{
    reveal_strlit("app.kubernetes.io/name");
    reveal_strlit("app.kubernetes.io/instance");
    reveal_strlit("app.kubernetes.io/managed-by");
    reveal_strlit("redis");
    reveal_strlit("=");
    reveal_strlit(",");
    reveal_strlit("app.kubernetes.io/name=redis,app.kubernetes.io/instance=");
    let a = "app.kubernetes.io/name"@;
    let b = "app.kubernetes.io/instance"@;
    assert(a.len() == 22 && b.len() == 26 && "app.kubernetes.io/managed-by"@.len() == 28);
    assert(pods_selector(name) =~= a + "="@ + "redis"@ + ","@ + b + "="@ + name);
}

/// Sentinel is asked on its own port, in its first pod, and by the name under which
/// it monitors; the primary for its replication state.
pub proof fn lemma_asked_where(name: Seq<char>, master: Seq<char>)
    ensures
        sentinel_query(name, master).pod == name + "-sentinel-0"@,
        sentinel_query(name, master).argv == seq![
            "redis-cli"@,
            "-p"@,
            "26379"@,
            "sentinel"@,
            "get-master-addr-by-name"@,
            master,
        ],
        replication_query(master).pod == master,
        replication_query(master).argv == seq!["redis-cli"@, "info"@, "replication"@],
{
    reveal_strlit("-sentinel");
    reveal_strlit("-0");
    reveal_strlit("-sentinel-0");
    assert(name + "-sentinel"@ + "-0"@ =~= name + "-sentinel-0"@);
}

/// Every resource that asks for no fewer than no pods can be planned.
pub proof fn lemma_resources_plannable(redis: Redis)
    requires
        redis.spec.replicas >= 0,
        redis.spec.sentinel matches Some(s) ==> s.replicas >= 0,
    ensures
        is_plannable(redis),
{
    if let Some(b) = redis.spec.pod_disruption_budget {
        controller::lemma_budgets_fit(b, redis.spec.replicas);
    }
    if let Some(s) = redis.spec.sentinel {
        if let Some(b) = s.pod_disruption_budget {
            controller::lemma_budgets_fit(b, s.replicas);
        }
    }
}

/// A plan applies the service and the set of the data pods, as many as are asked for,
/// and the service of the replicas. Their budget is the user's where there is one;
/// otherwise it lets one pod go from 2 pods on, and there is none below.
pub proof fn lemma_data_planned(
    ops: Seq<Operation>,
    redis: Redis,
    ns: Seq<char>,
    owner: OwnerReference,
)
    requires
        are_data_operations(ops, redis, ns, owner),
    ensures
        ops[0] matches Operation::ApplyService(s) && text::opt_view(s.metadata.name) == Some(
            redis.name@,
        ) && s.spec->0.ports->0@.len() == 1 && s.spec->0.ports->0@[0].port == 6379,
        ops[1] matches Operation::ApplyStatefulSet(s) && text::opt_view(s.metadata.name) == Some(
            redis.name@,
        ) && s.spec->0.replicas == Some(redis.spec.replicas),
        ops[2] matches Operation::ApplyService(s) && text::opt_view(s.metadata.name) == Some(
            redis.name@ + "-replicas"@,
        ) && s.spec->0.ports->0@.len() == 1 && s.spec->0.ports->0@[0].port == 6379,
        ops[3] matches Operation::SettlePdb { name, plan } && name@ == redis.name@
            && match redis.spec.pod_disruption_budget {
            Some(u) => plan.verdict@ == controller::verdict_of(
                u,
                redis.spec.replicas as int,
                redis.spec.slack(),
            ),
            None => match plan.action {
                controller::PdbAction::Delete => redis.spec.replicas < 2,
                controller::PdbAction::Keep => false,
                controller::PdbAction::Apply(p) => {
                    &&& redis.spec.replicas >= 2
                    &&& p.spec->0.min_available is None
                    &&& p.spec->0.max_unavailable == Some(crate::objects::IntOrString::Int(1))
                },
            },
        },
{
    let plan = ops[3]->SettlePdb_plan;
    let desired = choose|desired: Option<PodDisruptionBudgetSpec>| #[trigger]
        is_desired_redis_pdb(desired, redis) && is_pdb_plan(
            plan,
            desired,
            redis.spec.replicas as int,
            redis.spec.slack(),
            redis.name@,
            ns,
            builders::data_labels(redis.name@),
            owner,
        );
    assert(is_desired_redis_pdb(desired, redis));
    if redis.spec.pod_disruption_budget is None && redis.spec.replicas >= 2 {
        builders::lemma_default_redis_pdb_accepted(redis.spec, desired->0);
    }
}

/// For Sentinel a plan applies its service and its set, as many pods as are asked for.
/// Their budget is the user's where there is one; otherwise it keeps as many as
/// failover needs from 3 pods on. Below there is none, and a warning says so.
pub proof fn lemma_sentinels_planned(
    ops: Seq<Operation>,
    redis: Redis,
    s: SentinelSpec,
    ns: Seq<char>,
    owner: OwnerReference,
)
    requires
        are_sentinel_operations(ops, redis, s, ns, owner),
    ensures
        ops[0] matches Operation::ApplyService(v) && text::opt_view(v.metadata.name) == Some(
            redis.name@ + "-sentinel"@,
        ) && v.spec->0.ports->0@.len() == 1 && v.spec->0.ports->0@[0].port == 26379,
        ops[1] matches Operation::ApplyStatefulSet(v) && text::opt_view(v.metadata.name) == Some(
            redis.name@ + "-sentinel"@,
        ) && v.spec->0.replicas == Some(s.replicas),
        (ops.len() == 4) == (s.pod_disruption_budget is None && s.replicas < 3),
        ops.len() == 4 || ops.len() == 3,
        ops.len() == 4 ==> ops[2] is Emit && ops[2]->Emit_0.type_ == EventType::Warning
            && ops[2]->Emit_0.reason@ == "SentinelNotHighlyAvailable"@,
        ops.last() matches Operation::SettlePdb { name, plan } && name@ == redis.name@
            + "-sentinel"@ && match s.pod_disruption_budget {
            Some(u) => plan.verdict@ == controller::verdict_of(u, s.replicas as int, s.slack()),
            None => match plan.action {
                controller::PdbAction::Delete => s.replicas < 3,
                controller::PdbAction::Keep => false,
                controller::PdbAction::Apply(p) => {
                    &&& s.replicas >= 3
                    &&& p.spec->0.max_unavailable is None
                    &&& p.spec->0.min_available matches Some(crate::objects::IntOrString::Int(n))
                        && n == s.survivors()
                },
            },
        },
{
    let plan = ops.last()->SettlePdb_plan;
    let desired = choose|desired: Option<PodDisruptionBudgetSpec>| #[trigger]
        is_desired_sentinel_pdb(desired, s) && is_pdb_plan(
            plan,
            desired,
            s.replicas as int,
            s.slack(),
            redis.name@ + "-sentinel"@,
            ns,
            builders::sentinel_labels_of(redis.name@),
            owner,
        );
    assert(is_desired_sentinel_pdb(desired, s));
    if s.pod_disruption_budget is None && s.replicas >= 3 {
        builders::lemma_default_sentinel_pdb_accepted(s, desired->0);
    }
}

/// Seconds until a resource is looked at again.
pub const REQUEUE_SECONDS: u64 = 30;

/// Seconds until a resource is looked at again after a failure.
pub const RETRY_SECONDS: u64 = 15;

} // verus!
