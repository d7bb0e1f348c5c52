//! The reconciliation of a `RedisCluster` resource: what is done, and in which
//! order.

use vstd::prelude::*;

use super::builders;
use crate::controller;
use crate::controller::redis::reconcile;
use crate::controller::{PdbPlan, PdbRequest};
use crate::crd::redis_cluster;
use crate::crd::redis_cluster::RedisCluster;
use crate::objects::OwnerReference;

verus! {

/// Whether everything that is computed from a resource fits its type.
pub open spec fn is_plannable(rc: RedisCluster) -> bool {
    &&& redis_cluster::pods_fit(rc.spec.masters, rc.spec.replicas_per_master)
    &&& rc.spec.masters > i32::MIN
    &&& rc.spec.pod_disruption_budget matches Some(b) ==> controller::budget_fits(
        b,
        redis_cluster::pod_count(
            rc.spec.masters as int,
            rc.spec.replicas_per_master as int,
        ) as i32,
    )
}

/// Whether everything that is computed from a resource fits its type.
pub fn can_plan(rc: &RedisCluster) -> (b: bool)
    ensures
        b == is_plannable(*rc),
{
    if rc.spec.replicas_per_master == i32::MAX || rc.spec.masters == i32::MIN {
        return false;
    }
    assert(-0x8000_0000 * 0x8000_0000 <= rc.spec.masters * (1 + rc.spec.replicas_per_master)
        <= 0x8000_0000 * 0x8000_0000) by (nonlinear_arith)
        requires
            -0x8000_0000 <= rc.spec.masters <= 0x7fff_ffff,
            -0x8000_0000 <= rc.spec.replicas_per_master < 0x7fff_ffff,
    ;
    let total: i64 = (rc.spec.masters as i64) * (1 + rc.spec.replicas_per_master as i64);
    if total < i32::MIN as i64 || total > i32::MAX as i64 {
        return false;
    }
    match &rc.spec.pod_disruption_budget {
        Some(b) => controller::is_budget_computable(b, total as i32),
        None => true,
    }
}

/// Decides what becomes of the budget of a cluster. There is none unless the
/// user asks for one.
pub fn plan_cluster_pdb(rc: &RedisCluster, ns: &str, owner: OwnerReference) -> (plan: PdbPlan)
    requires
        is_plannable(*rc),
    ensures
        reconcile::is_pdb_plan(
            plan,
            rc.spec.pod_disruption_budget,
            redis_cluster::pod_count(
                rc.spec.masters as int,
                rc.spec.replicas_per_master as int,
            ),
            rc.spec.slack(),
            rc.name@,
            ns@,
            builders::cluster_labels(rc.name@),
            owner,
        ),
{
    let desired = match &rc.spec.pod_disruption_budget {
        Some(b) => Some(b.clone()),
        None => None,
    };
    let l = builders::labels(&rc.name);
    controller::reconcile_pdb(
        PdbRequest {
            name: &rc.name,
            ns,
            labels: &l,
            owner,
            desired,
            total: rc.spec.total_pods(),
            safe_max_unavailable: rc.spec.safe_max_unavailable(),
        },
    )
}

/// Every cluster whose pods can be counted, and are no fewer than none, can be
/// planned.
pub proof fn lemma_clusters_plannable(rc: RedisCluster)
    requires
        rc.spec.masters >= 0,
        0 <= rc.spec.replicas_per_master < i32::MAX,
        rc.spec.masters + rc.spec.masters * rc.spec.replicas_per_master <= i32::MAX,
    ensures
        is_plannable(rc),
{
    let a = rc.spec.masters as int;
    let b = rc.spec.replicas_per_master as int;
    assert(a * (1 + b) == a + a * b && a * (1 + b) >= 0) by (nonlinear_arith)
        requires
            a >= 0,
            b >= 0,
    ;
    let total = redis_cluster::pod_count(a, b);
    if let Some(p) = rc.spec.pod_disruption_budget {
        controller::lemma_budgets_fit(p, total as i32);
    }
}

/// Where a reconciliation stands.
#[derive(Clone, Copy, Debug, PartialEq, Eq)]
pub enum Step {
    /// Apply the headless service.
    ApplyService,
    /// See how many pods the live stateful set has.
    ReadReplicas,
    /// Take the pods that are to go out of the cluster.
    Drain,
    /// Apply the stateful set.
    ApplySet,
    /// Carry out what was decided about the budget.
    SettlePdb,
    /// See how many pods are ready.
    ReadReady,
    /// Form the cluster, or mend it.
    EnsureTopology,
    /// Report the cluster.
    Report,
    /// Report this phase and nothing else.
    ReportPhase(Phase),
    /// Come back after this many seconds.
    Requeue(u64),
}

/// A phase that is reported without looking at the cluster.
#[derive(Clone, Copy, Debug, PartialEq, Eq)]
pub enum Phase {
    /// The budget that the user asks for is refused.
    Degraded,
    /// Not every pod is ready yet.
    Pending,
}

impl Phase {
    pub open spec fn text_view(self) -> Seq<char> {
        match self {
            Phase::Degraded => "Degraded"@,
            Phase::Pending => "Pending"@,
        }
    }

    pub fn as_text(self) -> (s: &'static str)
        ensures
            s@ == self.text_view(),
    {
        match self {
            Phase::Degraded => "Degraded",
            Phase::Pending => "Pending",
        }
    }
}

/// What a step brought to light, as far as the next one depends on it.
#[derive(Clone, Copy, Debug, PartialEq, Eq)]
pub struct Found {
    /// Pods of the live stateful set; none where there is no such set.
    pub current: i32,
    /// The budget that the user asks for is refused.
    pub refused: bool,
    /// Pods that are ready.
    pub ready: i32,
}

/// The step behind `step` for a cluster of `total` pods. Pods leave the cluster
/// before the set shrinks under them; the budget comes behind the set, so that
/// refusing it stops nothing but what follows; the cluster is not touched before
/// every pod is ready.
pub open spec fn step_after(step: Step, found: Found, total: int) -> Step {
    match step {
        Step::ApplyService => Step::ReadReplicas,
        Step::ReadReplicas => if found.current > total {
            Step::Drain
        } else {
            Step::ApplySet
        },
        Step::Drain => Step::ApplySet,
        Step::ApplySet => Step::SettlePdb,
        Step::SettlePdb => if found.refused {
            Step::ReportPhase(Phase::Degraded)
        } else {
            Step::ReadReady
        },
        Step::ReadReady => if found.ready < total {
            Step::ReportPhase(Phase::Pending)
        } else {
            Step::EnsureTopology
        },
        Step::EnsureTopology => Step::Report,
        Step::Report => Step::Requeue(60),
        Step::ReportPhase(Phase::Degraded) => Step::Requeue(60),
        Step::ReportPhase(Phase::Pending) => Step::Requeue(10),
        Step::Requeue(s) => Step::Requeue(s),
    }
}

/// Decides the step behind `step`.
pub fn next_step(step: Step, found: Found, total: i32) -> (next: Step)
    ensures
        next == step_after(step, found, total as int),
{
    match step {
        Step::ApplyService => Step::ReadReplicas,
        Step::ReadReplicas => if found.current > total {
            Step::Drain
        } else {
            Step::ApplySet
        },
        Step::Drain => Step::ApplySet,
        Step::ApplySet => Step::SettlePdb,
        Step::SettlePdb => if found.refused {
            Step::ReportPhase(Phase::Degraded)
        } else {
            Step::ReadReady
        },
        Step::ReadReady => if found.ready < total {
            Step::ReportPhase(Phase::Pending)
        } else {
            Step::EnsureTopology
        },
        Step::EnsureTopology => Step::Report,
        Step::Report => Step::Requeue(60),
        Step::ReportPhase(Phase::Degraded) => Step::Requeue(60),
        Step::ReportPhase(Phase::Pending) => Step::Requeue(10),
        Step::Requeue(s) => Step::Requeue(s),
    }
}

/// How far a reconciliation has come.
pub open spec fn progress(step: Step) -> int {
    match step {
        Step::ApplyService => 0,
        Step::ReadReplicas => 1,
        Step::Drain => 2,
        Step::ApplySet => 3,
        Step::SettlePdb => 4,
        Step::ReadReady => 5,
        Step::EnsureTopology => 6,
        Step::Report => 7,
        Step::ReportPhase(_) => 7,
        Step::Requeue(_) => 8,
    }
}

/// A reconciliation comes to its end, and its steps keep their order: every step
/// brings it further. A set that is to shrink is not applied before the cluster
/// was drained; the cluster is not formed or mended unless every pod is ready and
/// no budget is refused; a refused budget, and nothing else, is reported as
/// degraded unseen, and pods that are not ready yet, and nothing else, as pending.
/// A cluster whose pods are not ready is looked at again soon, any other after a
/// minute.
pub proof fn lemma_steps_progress(step: Step, found: Found, total: int)
    ensures
        ({
            let next = step_after(step, found, total);
            &&& !(step is Requeue) ==> progress(next) > progress(step)
            &&& next is ApplySet && found.current > total ==> step is Drain
            &&& next is EnsureTopology ==> step is ReadReady && found.ready >= total
            &&& next is ReadReady ==> step is SettlePdb && !found.refused
            &&& next == Step::ReportPhase(Phase::Degraded) <==> step is SettlePdb && found.refused
            &&& next == Step::ReportPhase(Phase::Pending) <==> step is ReadReady && found.ready
                < total
            &&& next is Drain <==> step is ReadReplicas && found.current > total
            &&& next is ReadReplicas <==> step is ApplyService
            &&& next is SettlePdb <==> step is ApplySet
            &&& next is Report <==> step is EnsureTopology
            &&& step is Report ==> next == Step::Requeue(60)
            &&& step == Step::ReportPhase(Phase::Degraded) ==> next == Step::Requeue(60)
            &&& step == Step::ReportPhase(Phase::Pending) ==> next == Step::Requeue(10)
        }),
{
}

/// Where the forming or mending of a cluster stands.
#[derive(Clone, Copy, Debug, PartialEq, Eq)]
pub enum Stage {
    /// Find a pod that is a member of a formed cluster.
    FindSeed,
    /// Make the cluster.
    Bootstrap,
    /// Read the node table from the seed.
    ReadNodes,
    /// Bring back failed nodes.
    Heal,
    /// Read the table again, for healing changed it.
    ReadAgain,
    /// Add the pods that are not in the cluster.
    Grow,
    /// Point replicas at their masters again.
    Repair,
    /// Read the table as it is now.
    ReadForBalance,
    /// Even out replicas.
    Balance,
    Done,
}

/// The stage behind `stage`. Without a seed there is no cluster to mend.
/// Replicas are repaired by the table as it was read before, and so before they
/// are moved: afterwards the moves would look stale, and be undone.
pub open spec fn stage_after(stage: Stage, seed_found: bool, healed: bool) -> Stage {
    match stage {
        Stage::FindSeed => if seed_found {
            Stage::ReadNodes
        } else {
            Stage::Bootstrap
        },
        Stage::Bootstrap => Stage::Done,
        Stage::ReadNodes => Stage::Heal,
        Stage::Heal => if healed {
            Stage::ReadAgain
        } else {
            Stage::Grow
        },
        Stage::ReadAgain => Stage::Grow,
        Stage::Grow => Stage::Repair,
        Stage::Repair => Stage::ReadForBalance,
        Stage::ReadForBalance => Stage::Balance,
        Stage::Balance => Stage::Done,
        Stage::Done => Stage::Done,
    }
}

/// Decides the stage behind `stage`.
pub fn next_stage(stage: Stage, seed_found: bool, healed: bool) -> (next: Stage)
    ensures
        next == stage_after(stage, seed_found, healed),
{
    match stage {
        Stage::FindSeed => if seed_found {
            Stage::ReadNodes
        } else {
            Stage::Bootstrap
        },
        Stage::Bootstrap => Stage::Done,
        Stage::ReadNodes => Stage::Heal,
        Stage::Heal => if healed {
            Stage::ReadAgain
        } else {
            Stage::Grow
        },
        Stage::ReadAgain => Stage::Grow,
        Stage::Grow => Stage::Repair,
        Stage::Repair => Stage::ReadForBalance,
        Stage::ReadForBalance => Stage::Balance,
        Stage::Balance => Stage::Done,
        Stage::Done => Stage::Done,
    }
}

/// How far the mending of a cluster has come.
pub open spec fn stage_progress(stage: Stage) -> int {
    match stage {
        Stage::FindSeed => 0,
        Stage::ReadNodes => 1,
        Stage::Heal => 2,
        Stage::ReadAgain => 3,
        Stage::Grow => 4,
        Stage::Repair => 5,
        Stage::ReadForBalance => 6,
        Stage::Balance => 7,
        Stage::Bootstrap => 7,
        Stage::Done => 8,
    }
}

/// The mending of a cluster comes to its end, and replicas are repaired before
/// they are moved. A table that healing changed is read again before anything
/// else goes by it. A cluster is made only where no pod is a member of one.
pub proof fn lemma_stages_progress(stage: Stage, seed_found: bool, healed: bool)
    ensures
        ({
            let next = stage_after(stage, seed_found, healed);
            &&& !(stage is Done) ==> stage_progress(next) > stage_progress(stage)
            &&& next is Bootstrap <==> stage is FindSeed && !seed_found
            &&& next is ReadNodes <==> stage is FindSeed && seed_found
            &&& next is Heal <==> stage is ReadNodes
            &&& next is Grow <==> stage is ReadAgain || stage is Heal && !healed
            &&& next is Repair <==> stage is Grow
            &&& stage is Heal && healed ==> next is ReadAgain
            &&& next is ReadForBalance ==> stage is Repair
            &&& next is Balance ==> stage is ReadForBalance
        }),
{
}

/// Seconds until a resource is looked at again after a failure.
pub const RETRY_SECONDS: u64 = 15;

} // verus!
