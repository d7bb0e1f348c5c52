//! What both controllers share: the flags and resources of a Redis server, the
//! spread of its pods, and the budget for their disruption.

use vstd::prelude::*;

use crate::crd::redis::{
    EvictionPolicy, PersistenceSpec, PodDisruptionBudgetSpec, ResourcesSpec,
};
use crate::number;
use crate::objects;
use crate::objects::{
    IntOrString, LabelSelector, ObjectMeta, OwnerReference, PodDisruptionBudget,
    PodDisruptionBudgetObjectSpec, Quantity, ResourceRequirements, TopologySpreadConstraint,
};
use crate::quantity;
use crate::str_map;
use crate::str_map::StrMap;
use crate::text;

pub mod apply;
pub mod redis;
pub mod redis_cluster;
pub mod scripts;
pub mod workload;

pub use crate::quantity::parse_quantity_bytes;

verus! {

/// The name under which the operator owns what it writes.
pub const FIELD_MANAGER: &'static str = "redis-operator";

/// What Redis containers ask for unless told otherwise.
pub open spec fn default_requests() -> Map<Seq<char>, Seq<char>> {
    map!["cpu"@ => "1200m"@, "memory"@ => "1Gi"@]
}

/// What Redis containers are limited to unless told otherwise.
pub open spec fn default_limits() -> Map<Seq<char>, Seq<char>> {
    map!["cpu"@ => "2"@, "memory"@ => "1Gi"@]
}

/// `base` with the entries of `user` put in, where there are any.
pub open spec fn overridden(
    base: Map<Seq<char>, Seq<char>>,
    user: Option<StrMap<String>>,
) -> Map<Seq<char>, Seq<char>> {
    match user {
        Some(m) => base.union_prefer_right(str_map::texts(m)),
        None => base,
    }
}

/// What a Redis container asks for, the user's `resources` merged per key.
pub open spec fn effective_requests(user: Option<ResourcesSpec>) -> Map<Seq<char>, Seq<char>> {
    match user {
        Some(u) => overridden(default_requests(), u.requests),
        None => default_requests(),
    }
}

/// What a Redis container is limited to, the user's `resources` merged per key.
pub open spec fn effective_limits(user: Option<ResourcesSpec>) -> Map<Seq<char>, Seq<char>> {
    match user {
        Some(u) => overridden(default_limits(), u.limits),
        None => default_limits(),
    }
}

/// A map of two quantities.
fn quantity_pair(a: &str, x: &str, b: &str, y: &str) -> (m: StrMap<Quantity>)
    ensures
        objects::quantities(m) == Map::<Seq<char>, Seq<char>>::empty().insert(a@, x@).insert(
            b@,
            y@,
        ),
{
    let mut m: StrMap<Quantity> = StrMap::new();
    m.insert(a.to_string(), Quantity(x.to_string()));
    m.insert(b.to_string(), Quantity(y.to_string()));
    assert(objects::quantities(m) =~= Map::<Seq<char>, Seq<char>>::empty().insert(a@, x@).insert(
        b@,
        y@,
    ));
    m
}

/// What a Redis container asks for and is limited to unless told otherwise:
/// enough to be useful, and as much memory requested as allowed, so that the
/// kernel does not reclaim what `maxmemory` grants.
pub fn default_redis_resources() -> (rr: ResourceRequirements)
    ensures
        objects::opt_quantities(rr.requests) == Some(default_requests()),
        objects::opt_quantities(rr.limits) == Some(default_limits()),
{
    ResourceRequirements {
        requests: Some(quantity_pair("cpu", "1200m", "memory", "1Gi")),
        limits: Some(quantity_pair("cpu", "2", "memory", "1Gi")),
    }
}

/// `base` with the entries of `user` put in.
pub fn put_all(base: StrMap<Quantity>, user: &StrMap<String>) -> (r: StrMap<Quantity>)
    ensures
        objects::quantities(r) == objects::quantities(base).union_prefer_right(
            str_map::texts(*user),
        ),
{
    let ghost b = objects::quantities(base);
    let mut r = base;
    let n: usize = user.len();
    let mut i: usize = 0;
    let ghost e = user.pairs();
    let ghost view = |s: String| s@;
    proof {
        assert(str_map::map_of(e.take(0)) =~= Map::<Seq<char>, String>::empty());
        assert(b =~= b.union_prefer_right(str_map::map_of(e.take(0)).map_values(view)));
    }
    while i < n
        invariant
            n == e.len(),
            e == user.pairs(),
            str_map::keys_ascend(e),
            i <= n,
            view == (|s: String| s@),
            objects::quantities(r) == b.union_prefer_right(
                str_map::map_of(e.take(i as int)).map_values(view),
            ),
        decreases n - i,
    {
        let k = user.key_at(i).to_string();
        let v = user.value_at(i).clone();
        let ghost old_r = objects::quantities(r);
        let ghost done = str_map::map_of(e.take(i as int));
        proof {
            str_map::lemma_take_next(e, i as int);
            assert(str_map::map_of(e.take(i + 1)).map_values(view) =~= done.map_values(view).insert(
                k@,
                v@,
            ));
        }
        r.insert(k, Quantity(v));
        proof {
            assert(objects::quantities(r) =~= old_r.insert(k@, v@));
            assert(objects::quantities(r) =~= b.union_prefer_right(
                str_map::map_of(e.take(i + 1)).map_values(view),
            ));
        }
        i = i + 1;
    }
    assert(e.take(n as int) =~= e);
    r
}

/// What the Redis container asks for and is limited to: the defaults, with the
/// user's values put in key by key.
pub fn effective_redis_resources(user: Option<&ResourcesSpec>) -> (rr: ResourceRequirements)
    ensures
        objects::opt_quantities(rr.requests) == Some(
            effective_requests(
                match user {
                    Some(u) => Some(*u),
                    None => None,
                },
            ),
        ),
        objects::opt_quantities(rr.limits) == Some(
            effective_limits(
                match user {
                    Some(u) => Some(*u),
                    None => None,
                },
            ),
        ),
{
    let requests = quantity_pair("cpu", "1200m", "memory", "1Gi");
    let limits = quantity_pair("cpu", "2", "memory", "1Gi");
    match user {
        None => ResourceRequirements { requests: Some(requests), limits: Some(limits) },
        Some(u) => {
            let requests = match &u.requests {
                Some(m) => put_all(requests, m),
                None => requests,
            };
            let limits = match &u.limits {
                Some(m) => put_all(limits, m),
                None => limits,
            };
            ResourceRequirements { requests: Some(requests), limits: Some(limits) }
        },
    }
}

/// A key that the user sets has the user's value; every other key keeps its
/// default.
pub proof fn lemma_resources_merge_per_key(user: ResourcesSpec, k: Seq<char>)
    ensures
        ({
            let r = effective_requests(Some(user));
            match user.requests {
                Some(m) => if m@.contains_key(k) {
                    r.contains_key(k) && r[k] == m@[k]@
                } else {
                    r.contains_key(k) == default_requests().contains_key(k) && (
                    default_requests().contains_key(k) ==> r[k] == default_requests()[k])
                },
                None => r == default_requests(),
            }
        }),
        ({
            let r = effective_limits(Some(user));
            match user.limits {
                Some(m) => if m@.contains_key(k) {
                    r.contains_key(k) && r[k] == m@[k]@
                } else {
                    r.contains_key(k) == default_limits().contains_key(k) && (
                    default_limits().contains_key(k) ==> r[k] == default_limits()[k])
                },
                None => r == default_limits(),
            }
        }),
{
}

/// The snapshot triggers that Redis itself defaults to.
pub const DEFAULT_SAVE_POINTS: &'static str = "3600 1 300 100 60 10000";

/// Whether snapshots are on.
pub open spec fn rdb_on(p: Option<PersistenceSpec>) -> bool {
    match p {
        Some(p) => p.enabled && (p.rdb matches Some(r) ==> r.enabled),
        None => true,
    }
}

/// Whether the append-only file is on.
pub open spec fn aof_on(p: Option<PersistenceSpec>) -> bool {
    match p {
        Some(p) => p.enabled && (p.aof matches Some(a) ==> a.enabled),
        None => true,
    }
}

/// The value of `--save`.
pub open spec fn save_points(p: Option<PersistenceSpec>) -> Seq<char> {
    if !rdb_on(p) {
        Seq::empty()
    } else {
        match p {
            Some(PersistenceSpec { rdb: Some(r), .. }) => match r.save {
                Some(v) => text::joined(text::owned_views(v@), " "@),
                None => DEFAULT_SAVE_POINTS@,
            },
            _ => DEFAULT_SAVE_POINTS@,
        }
    }
}

/// The value of `--appendfsync`.
pub open spec fn fsync_value(p: Option<PersistenceSpec>) -> Seq<char> {
    match p {
        Some(PersistenceSpec { aof: Some(a), .. }) => match a.fsync {
            Some(f) => f.redis_value(),
            None => "everysec"@,
        },
        _ => "everysec"@,
    }
}

/// The flags that a persistence block stands for.
pub open spec fn persistence_flags(p: Option<PersistenceSpec>) -> Seq<char> {
    let base = " --dir /data --save \""@ + save_points(p) + "\""@;
    if aof_on(p) {
        base + " --appendonly yes --appendfsync "@ + fsync_value(p)
    } else {
        base + " --appendonly no"@
    }
}

/// The option that a reference to its content stands for.
pub open spec fn pointee<T>(o: Option<&T>) -> Option<T> {
    match o {
        Some(r) => Some(*r),
        None => None,
    }
}

/// The `redis-server` flags of a persistence block, with a space in front.
///
/// `--save` and `--appendonly` are spelled out even where they match the
/// defaults of Redis: arguments win over the configuration file, so that
/// neither an image nor a rewritten file decides what is kept. `--dir /data` is
/// there always, and so is the mount.
pub fn persistence_args(user: Option<&PersistenceSpec>) -> (args: String)
    ensures
        args@ == persistence_flags(pointee(user)),
{
    let mut args = " --dir /data --save \"".to_string();
    let mut aof = true;
    let mut fsync = "everysec";
    match user {
        None => {
            args.append(DEFAULT_SAVE_POINTS);
        },
        Some(p) => {
            match &p.rdb {
                None => {
                    if p.enabled {
                        args.append(DEFAULT_SAVE_POINTS);
                    }
                },
                Some(r) => {
                    if p.enabled && r.enabled {
                        match &r.save {
                            Some(points) => {
                                args.append(&text::join(points, " "));
                            },
                            None => {
                                args.append(DEFAULT_SAVE_POINTS);
                            },
                        }
                    }
                },
            }
            match &p.aof {
                None => {
                    aof = p.enabled;
                },
                Some(a) => {
                    aof = p.enabled && a.enabled;
                    match a.fsync {
                        Some(f) => {
                            fsync = f.as_redis_value();
                        },
                        None => {},
                    }
                },
            }
        },
    }
    proof {
        assert(args@ =~= " --dir /data --save \""@ + save_points(pointee(user)));
    }
    args.append("\"");
    if aof {
        args.append(" --appendonly yes --appendfsync ");
        args.append(fsync);
    } else {
        args.append(" --appendonly no");
    }
    args
}

/// An absent block means the same as an empty one.
pub proof fn lemma_absent_persistence_is_default(p: PersistenceSpec)
    requires
        p.enabled,
        p.rdb is None,
        p.aof is None,
    ensures
        persistence_flags(None) == persistence_flags(Some(p)),
{
}

/// The master switch turns both off, whatever the blocks below it say.
pub proof fn lemma_master_switch(p: PersistenceSpec)
    requires
        !p.enabled,
    ensures
        persistence_flags(Some(p)) == " --dir /data --save \"\" --appendonly no"@,
{
    reveal_strlit(" --dir /data --save \"");
    reveal_strlit("\"");
    reveal_strlit(" --appendonly no");
    reveal_strlit(" --dir /data --save \"\" --appendonly no");
    assert(persistence_flags(Some(p)) =~= " --dir /data --save \"\" --appendonly no"@);
}

/// The value of `--maxmemory-policy`.
pub open spec fn eviction_value(policy: Option<EvictionPolicy>) -> Seq<char> {
    match policy {
        Some(p) => p.redis_value(),
        None => "noeviction"@,
    }
}

/// The flag that an eviction policy stands for.
pub open spec fn eviction_flag(policy: Option<EvictionPolicy>) -> Seq<char> {
    " --maxmemory-policy "@ + eviction_value(policy)
}

/// The `redis-server` flag of an eviction policy, with a space in front. It is
/// there always, so that neither an image nor a rewritten configuration file
/// decides what is dropped.
pub fn eviction_args(policy: Option<EvictionPolicy>) -> (args: String)
    ensures
        args@ == eviction_flag(policy),
{
    let value = match policy {
        Some(p) => p.as_redis_value(),
        None => "noeviction",
    };
    let mut args = " --maxmemory-policy ".to_string();
    args.append(value);
    args
}

/// The memory that a container may use, as its limit or else its request says.
pub open spec fn memory_text(rr: ResourceRequirements) -> Option<Seq<char>> {
    let limit = match objects::opt_quantities(rr.limits) {
        Some(m) => if m.contains_key("memory"@) {
            Some(m["memory"@])
        } else {
            None
        },
        None => None,
    };
    let request = match objects::opt_quantities(rr.requests) {
        Some(m) => if m.contains_key("memory"@) {
            Some(m["memory"@])
        } else {
            None
        },
        None => None,
    };
    if limit is Some {
        limit
    } else {
        request
    }
}

/// Seven tenths of the memory `mem`, where it is a quantity.
pub open spec fn seven_tenths(mem: Option<Seq<char>>) -> Option<int> {
    match mem {
        Some(t) => match quantity::bytes(t) {
            Some(n) => Some(n * 7 / 10),
            None => None,
        },
        None => None,
    }
}

/// The `--maxmemory` of a container: seven tenths of its memory limit, or of
/// its request where there is no limit. The rest is headroom for forks, buffers
/// and fragmentation. Nothing where no memory that can be read is configured.
pub fn maxmemory_bytes(rr: &ResourceRequirements) -> (r: Option<u64>)
    ensures
        r is Some <==> seven_tenths(memory_text(*rr)) is Some,
        r matches Some(n) ==> seven_tenths(memory_text(*rr)) == Some(n as int),
{
    let limit = match &rr.limits {
        Some(m) => m.get("memory"),
        None => None,
    };
    let mem = match limit {
        Some(q) => Some(q),
        None => match &rr.requests {
            Some(m) => m.get("memory"),
            None => None,
        },
    };
    match mem {
        None => None,
        Some(q) => {
            assert(memory_text(*rr) == Some(q.0@));
            match parse_quantity_bytes(&q.0) {
                None => None,
                Some(n) => {
                    let share: u128 = (n as u128) * 7 / 10;
                    Some(share as u64)
                },
            }
        },
    }
}

/// Outcome of holding a disruption budget against what a workload tolerates.
#[derive(Debug, PartialEq, Eq)]
pub enum PdbVerdict {
    /// Within what the workload survives.
    Accepted,
    /// The workload has fewer than 2 pods, so there is nothing to protect. The
    /// budget is applied as asked.
    NotApplicable,
    /// Neither bound is set: no budget is wanted.
    Empty,
    /// Both bounds are set, which the API server rejects.
    BothSet,
    /// More disruption at once than the workload survives.
    Unsafe { requested: i32, allowed: i32 },
    /// A bound that is neither an integer nor a percentage.
    Unresolvable { field: &'static str, value: String },
}

pub ghost enum VerdictView {
    Accepted,
    NotApplicable,
    Empty,
    BothSet,
    Unsafe { requested: int, allowed: int },
    Unresolvable { field: Seq<char>, value: Seq<char> },
}

impl View for PdbVerdict {
    type V = VerdictView;

    open spec fn view(&self) -> VerdictView {
        match *self {
            PdbVerdict::Accepted => VerdictView::Accepted,
            PdbVerdict::NotApplicable => VerdictView::NotApplicable,
            PdbVerdict::Empty => VerdictView::Empty,
            PdbVerdict::BothSet => VerdictView::BothSet,
            PdbVerdict::Unsafe { requested, allowed } => VerdictView::Unsafe {
                requested: requested as int,
                allowed: allowed as int,
            },
            PdbVerdict::Unresolvable { field, value } => VerdictView::Unresolvable {
                field: field@,
                value: value@,
            },
        }
    }
}

impl VerdictView {
    /// Whether the budget goes to the API server.
    pub open spec fn applies(self) -> bool {
        self is Accepted || self is NotApplicable
    }

    /// Whether the user asked for a budget that is not applied.
    pub open spec fn refuses(self) -> bool {
        !self.applies() && !(self is Empty)
    }

    /// The reason of the event about it.
    pub open spec fn reason_view(self) -> Option<Seq<char>> {
        match self {
            VerdictView::Accepted => None,
            VerdictView::Empty => None,
            VerdictView::NotApplicable => Some("IneffectivePodDisruptionBudget"@),
            VerdictView::BothSet => Some("InvalidPodDisruptionBudget"@),
            VerdictView::Unresolvable { .. } => Some("InvalidPodDisruptionBudget"@),
            VerdictView::Unsafe { .. } => Some("UnsafePodDisruptionBudget"@),
        }
    }

    /// What the event about it says.
    pub open spec fn note_view(self) -> Option<Seq<char>> {
        match self {
            VerdictView::Accepted => None,
            VerdictView::Empty => None,
            VerdictView::NotApplicable => Some(
                "podDisruptionBudget applied, but this workload has fewer than 2 pods so the budget cannot protect anything"@,
            ),
            VerdictView::BothSet => Some(
                "podDisruptionBudget sets both minAvailable and maxUnavailable, which the API server rejects; leaving the PDB unchanged"@,
            ),
            VerdictView::Unresolvable { field, value } => Some(
                unresolvable_text(field, text::debug_quoted(value)),
            ),
            VerdictView::Unsafe { requested, allowed } => Some(
                "podDisruptionBudget permits "@ + number::written(requested)
                    + " concurrent disruption(s) but this workload survives at most "@
                    + number::written(allowed) + "; leaving the PDB unchanged"@,
            ),
        }
    }
}

/// What is said of a bound `field` that cannot be resolved, its value in quotes.
pub open spec fn unresolvable_text(field: Seq<char>, quoted: Seq<char>) -> Seq<char> {
    "podDisruptionBudget "@ + field + " value "@ + quoted
        + " is not a valid integer or percentage; leaving the PDB unchanged"@
}

/// What is said of a bound `field` that cannot be resolved, its value in quotes.
pub fn unresolvable_note(field: &str, quoted: &str) -> (note: String)
    ensures
        note@ == unresolvable_text(field@, quoted@),
{
    let mut note = "podDisruptionBudget ".to_string();
    note.append(field);
    note.append(" value ");
    note.append(quoted);
    note.append(" is not a valid integer or percentage; leaving the PDB unchanged");
    note
}

impl PdbVerdict {
    /// Whether the budget is to be sent to the API server.
    pub fn should_apply(&self) -> (b: bool)
        ensures
            b == self@.applies(),
    {
        match self {
            PdbVerdict::Accepted => true,
            PdbVerdict::NotApplicable => true,
            _ => false,
        }
    }

    /// Whether the user asked for a budget that is not applied.
    pub fn is_refusal(&self) -> (b: bool)
        ensures
            b == self@.refuses(),
    {
        match self {
            PdbVerdict::Accepted => false,
            PdbVerdict::NotApplicable => false,
            PdbVerdict::Empty => false,
            _ => true,
        }
    }

    /// The reason of the event about it, where it warrants one.
    pub fn reason(&self) -> (r: Option<&'static str>)
        ensures
            text::opt_str_view(r) == self@.reason_view(),
    {
        match self {
            PdbVerdict::Accepted => None,
            PdbVerdict::Empty => None,
            PdbVerdict::NotApplicable => Some("IneffectivePodDisruptionBudget"),
            PdbVerdict::BothSet => Some("InvalidPodDisruptionBudget"),
            PdbVerdict::Unresolvable { .. } => Some("InvalidPodDisruptionBudget"),
            PdbVerdict::Unsafe { .. } => Some("UnsafePodDisruptionBudget"),
        }
    }

    /// What the event about it says, where it warrants one.
    pub fn note(&self) -> (r: Option<String>)
        ensures
            text::opt_view(r) == self@.note_view(),
    {
        match self {
            PdbVerdict::Accepted => None,
            PdbVerdict::Empty => None,
            PdbVerdict::NotApplicable => Some(
                "podDisruptionBudget applied, but this workload has fewer than 2 pods so the budget cannot protect anything".to_string(),
            ),
            PdbVerdict::BothSet => Some(
                "podDisruptionBudget sets both minAvailable and maxUnavailable, which the API server rejects; leaving the PDB unchanged".to_string(),
            ),
            PdbVerdict::Unresolvable { field, value } => Some(
                unresolvable_note(field, &text::quote(value)),
            ),
            PdbVerdict::Unsafe { requested, allowed } => {
                let mut note = "podDisruptionBudget permits ".to_string();
                note.append(&number::i32_text(*requested));
                note.append(" concurrent disruption(s) but this workload survives at most ");
                note.append(&number::i32_text(*allowed));
                note.append("; leaving the PDB unchanged");
                Some(note)
            },
        }
    }
}

/// The percentage that `s` writes down, from 0 to 100: digits with a percent sign
/// right behind them, and nothing else.
pub open spec fn percentage(s: Seq<char>) -> Option<int> {
    match text::without_suffix(s, "%"@) {
        Some(n) => number::magnitude(n, 100),
        None => None,
    }
}

/// `percent` of `total` pods, rounded up.
pub open spec fn share(percent: int, total: int) -> int {
    number::quotient(percent * total + 99, 100)
}

/// The pods that a bound stands for in a workload of `total` pods. No bound is
/// below zero.
pub open spec fn resolved(v: IntOrString, total: int) -> Option<int> {
    match v {
        IntOrString::Int(n) => if n >= 0 {
            Some(n as int)
        } else {
            None
        },
        IntOrString::String(s) => match percentage(s@) {
            Some(p) => Some(share(p, total)),
            None => None,
        },
    }
}

/// Resolves a bound against the size of its workload as the disruption
/// controller does: a percentage is rounded up for either bound. That makes
/// `minAvailable` stricter and `maxUnavailable` looser, so that rounding down
/// here would let unsafe budgets through. Nothing for what the API server
/// rejects: a negative number, or a text that is not a percentage to the letter.
pub fn resolve_int_or_percent(v: &IntOrString, total: i32) -> (r: Option<i32>)
    ensures
        r is Some <==> resolved(*v, total as int) is Some,
        r matches Some(n) ==> resolved(*v, total as int) == Some(n as int),
{
    match v {
        IntOrString::Int(n) => if *n >= 0 {
            Some(*n)
        } else {
            None
        },
        IntOrString::String(s) => match text::strip_suffix(s, "%") {
            None => None,
            Some(n) => match number::parse_digits(n, 100) {
                None => None,
                Some(percent) => {
                    assert(-100 * 0x8000_0000 <= percent * total <= 100 * 0x7fff_ffff)
                        by (nonlinear_arith)
                        requires
                            0 <= percent <= 100,
                            -0x8000_0000 <= total <= 0x7fff_ffff,
                    ;
                    Some(((percent as i64 * total as i64 + 99) / 100) as i32)
                },
            },
        },
    }
}

/// A percentage of a workload is a number of its pods, none of them for 0 and
/// all of them for 100, and never less than the exact part.
pub proof fn lemma_share_bounds(percent: int, total: int)
    requires
        0 <= percent <= 100,
        total >= 0,
    ensures
        0 <= share(percent, total) <= total,
        share(0, total) == 0,
        share(100, total) == total,
        share(percent, total) * 100 >= percent * total,
        (share(percent, total) - 1) * 100 < percent * total,
{
    assert(0 <= percent * total <= 100 * total) by (nonlinear_arith)
        requires
            0 <= percent <= 100,
            total >= 0,
    ;
}

/// How a bound is shown.
pub open spec fn shown(v: IntOrString) -> Seq<char> {
    match v {
        IntOrString::Int(n) => number::written(n as int),
        IntOrString::String(s) => s@,
    }
}

/// How a bound is shown.
pub fn int_or_string_display(v: &IntOrString) -> (s: String)
    ensures
        s@ == shown(*v),
{
    match v {
        IntOrString::Int(n) => number::i32_text(*n),
        IntOrString::String(s) => s.clone(),
    }
}

/// Disruption at once that a budget permits over `total` pods, or why it
/// cannot be said.
pub open spec fn permitted(spec: PodDisruptionBudgetSpec, total: int) -> Result<int, VerdictView> {
    match (spec.min_available, spec.max_unavailable) {
        (Some(_), Some(_)) => Err(VerdictView::BothSet),
        (None, None) => Err(VerdictView::Empty),
        (Some(min), None) => match resolved(min, total) {
            Some(m) => Ok(total - m),
            None => Err(
                VerdictView::Unresolvable { field: "minAvailable"@, value: shown(min) },
            ),
        },
        (None, Some(max)) => match resolved(max, total) {
            Some(m) => Ok(m),
            None => Err(
                VerdictView::Unresolvable { field: "maxUnavailable"@, value: shown(max) },
            ),
        },
    }
}

/// Whether the permitted disruption can be computed in the width of its type.
pub open spec fn budget_fits(spec: PodDisruptionBudgetSpec, total: i32) -> bool {
    permitted(spec, total as int) matches Ok(n) ==> i32::MIN <= n <= i32::MAX
}

/// Whether the permitted disruption can be computed: only an integer far off can
/// be out of bounds, for a percentage is part of the workload.
pub fn is_budget_computable(spec: &PodDisruptionBudgetSpec, total: i32) -> (b: bool)
    ensures
        b == budget_fits(*spec, total),
{
    match (&spec.min_available, &spec.max_unavailable) {
        (Some(min), None) => match resolve_int_or_percent(min, total) {
            Some(m) => {
                let n: i64 = total as i64 - m as i64;
                i32::MIN as i64 <= n && n <= i32::MAX as i64
            },
            None => true,
        },
        (None, Some(max)) => {
            proof {
                if let IntOrString::String(s) = max {
                    if let Some(p) = percentage(s@) {
                        assert(-0x8000_0000 * 100 <= p * total <= 0x7fff_ffff * 100)
                            by (nonlinear_arith)
                            requires
                                0 <= p <= 100,
                                -0x8000_0000 <= total <= 0x7fff_ffff,
                        ;
                    }
                }
            }
            true
        },
        _ => true,
    }
}

/// Disruption at once that a budget permits over a workload of `total` pods,
/// whichever of the two bounds it sets.
pub fn pdb_effective_max_unavailable(
    spec: &PodDisruptionBudgetSpec,
    total: i32,
) -> (r: std::result::Result<i32, PdbVerdict>)
    requires
        budget_fits(*spec, total),
    ensures
        match r {
            Ok(n) => permitted(*spec, total as int) == Ok::<int, VerdictView>(n as int),
            Err(v) => permitted(*spec, total as int) == Err::<int, VerdictView>(v@),
        },
{
    match (&spec.min_available, &spec.max_unavailable) {
        (Some(_), Some(_)) => Err(PdbVerdict::BothSet),
        (None, None) => Err(PdbVerdict::Empty),
        (Some(min), None) => match resolve_int_or_percent(min, total) {
            Some(m) => Ok(total - m),
            None => Err(
                PdbVerdict::Unresolvable {
                    field: "minAvailable",
                    value: int_or_string_display(min),
                },
            ),
        },
        (None, Some(max)) => match resolve_int_or_percent(max, total) {
            Some(m) => Ok(m),
            None => Err(
                PdbVerdict::Unresolvable {
                    field: "maxUnavailable",
                    value: int_or_string_display(max),
                },
            ),
        },
    }
}

/// The outcome of holding a budget over `total` pods against what may be
/// unavailable at once.
pub open spec fn verdict_of(spec: PodDisruptionBudgetSpec, total: int, safe: int) -> VerdictView {
    match permitted(spec, total) {
        Err(v) => v,
        Ok(requested) => if total < 2 {
            VerdictView::NotApplicable
        } else if requested > safe {
            VerdictView::Unsafe { requested, allowed: safe }
        } else {
            VerdictView::Accepted
        },
    }
}

/// Holds the disruption that a budget permits against what the workload
/// survives.
pub fn validate_pdb(spec: &PodDisruptionBudgetSpec, total: i32, safe: i32) -> (v: PdbVerdict)
    requires
        budget_fits(*spec, total),
    ensures
        v@ == verdict_of(*spec, total as int, safe as int),
{
    let requested: i32 = match pdb_effective_max_unavailable(spec, total) {
        Ok(n) => n,
        Err(v) => {
            return v;
        },
    };
    if total < 2 {
        return PdbVerdict::NotApplicable;
    }
    if requested > safe {
        return PdbVerdict::Unsafe { requested, allowed: safe };
    }
    PdbVerdict::Accepted
}

/// A budget that is applied to 2 or more pods permits no more disruption than
/// the workload survives.
pub proof fn lemma_applied_budget_is_safe(spec: PodDisruptionBudgetSpec, total: int, safe: int)
    requires
        total >= 2,
        verdict_of(spec, total, safe).applies(),
    ensures
        permitted(spec, total) is Ok,
        permitted(spec, total)->Ok_0 <= safe,
{
}

/// What a bound of `percent` percent is worth: a budget that keeps so many pods
/// available is applied exactly where the pods that it lets go, rounded down, are
/// no more than the workload survives; one that lets so many go, exactly where
/// these, rounded up, are no more.
pub proof fn lemma_percentage_judged(
    spec: PodDisruptionBudgetSpec,
    bound: IntOrString,
    percent: nat,
    total: int,
    safe: int,
)
    requires
        percent <= 100,
        total >= 2,
        bound is String,
        bound->String_0@ == number::written(percent as int) + seq!['%'],
    ensures
        spec.min_available == Some(bound) && spec.max_unavailable is None ==> (verdict_of(
            spec,
            total,
            safe,
        ).applies() <==> (100 - percent) * total < 100 * (safe + 1)),
        spec.max_unavailable == Some(bound) && spec.min_available is None ==> (verdict_of(
            spec,
            total,
            safe,
        ).applies() <==> percent * total <= 100 * safe),
{
    let s = bound->String_0@;
    let w = number::written(percent as int);
    reveal_strlit("%");
    assert("%"@ =~= seq!['%']);
    number::lemma_digits(percent);
    assert(s.take(s.len() - 1) =~= w);
    assert(s.skip(s.len() - 1) =~= "%"@);
    assert(percentage(s) == Some(percent as int));
    lemma_share_bounds(percent as int, total);
    assert((100 - percent) * total == 100 * total - percent * total) by (nonlinear_arith);
}

/// What a bound in pods is worth: a budget that keeps so many available is applied
/// exactly where the workload survives the loss of all the others; one that lets so
/// many go, exactly where it survives their loss. Below zero there is no bound.
pub proof fn lemma_count_judged(
    spec: PodDisruptionBudgetSpec,
    n: i32,
    total: int,
    safe: int,
)
    requires
        total >= 2,
    ensures
        spec.min_available == Some(IntOrString::Int(n)) && spec.max_unavailable is None ==> (
        verdict_of(spec, total, safe).applies() <==> n >= 0 && total - n <= safe),
        spec.max_unavailable == Some(IntOrString::Int(n)) && spec.min_available is None ==> (
        verdict_of(spec, total, safe).applies() <==> 0 <= n <= safe),
        (spec.min_available is Some) != (spec.max_unavailable is Some) ==> (verdict_of(
            spec,
            total,
            safe,
        ).applies() != verdict_of(spec, total, safe).refuses()),
{
}

/// Two bounds are one too many, and the budget is refused; without one there is no
/// budget. Over fewer than 2 pods a bound that can be read is applied as it is.
pub proof fn lemma_bounds_judged(spec: PodDisruptionBudgetSpec, n: i32, total: int, safe: int)
    ensures
        spec.min_available is Some && spec.max_unavailable is Some ==> verdict_of(
            spec,
            total,
            safe,
        ) == VerdictView::BothSet && verdict_of(spec, total, safe).refuses(),
        spec.min_available is None && spec.max_unavailable is None ==> {
            let v = verdict_of(spec, total, safe);
            !v.applies() && !v.refuses()
        },
        total < 2 && n >= 0 && (spec.min_available == Some(IntOrString::Int(n))
            && spec.max_unavailable is None || spec.max_unavailable == Some(IntOrString::Int(n))
            && spec.min_available is None) ==> verdict_of(spec, total, safe)
            == VerdictView::NotApplicable && verdict_of(spec, total, safe).applies(),
{
}

/// A workload that survives more has every budget applied that was applied before.
pub proof fn lemma_more_slack_refuses_less(
    spec: PodDisruptionBudgetSpec,
    total: int,
    safe: int,
    safer: int,
)
    requires
        safe <= safer,
        verdict_of(spec, total, safe).applies(),
    ensures
        verdict_of(spec, total, safer).applies(),
{
}

/// What Redis may use is seven tenths of the memory that its container has, no more
/// and, but for a byte, no less. The limit counts, and the request only where there
/// is no limit.
pub proof fn lemma_headroom_kept(rr: ResourceRequirements, m: int, bytes: int)
    requires
        seven_tenths(memory_text(rr)) == Some(m),
    ensures
        ({
            let limits = objects::opt_quantities(rr.limits);
            let requests = objects::opt_quantities(rr.requests);
            let limited = limits is Some && limits->0.contains_key("memory"@);
            let asked = requests is Some && requests->0.contains_key("memory"@);
            &&& limited || asked
            &&& limited && quantity::bytes(limits->0["memory"@]) == Some(bytes) ==> 10 * m <= 7
                * bytes < 10 * (m + 1)
            &&& !limited && quantity::bytes(requests->0["memory"@]) == Some(bytes) ==> 10 * m <= 7
                * bytes < 10 * (m + 1)
        }),
{
}

/// What a budget permits can be computed of every workload there can be: only of
/// fewer than no pods it could not.
pub proof fn lemma_budgets_fit(spec: PodDisruptionBudgetSpec, total: i32)
    requires
        total >= 0,
    ensures
        budget_fits(spec, total),
{
    if let Some(IntOrString::String(s)) = spec.min_available {
        if let Some(p) = percentage(s@) {
            lemma_share_bounds(p, total as int);
        }
    }
    if let Some(IntOrString::String(s)) = spec.max_unavailable {
        if let Some(p) = percentage(s@) {
            lemma_share_bounds(p, total as int);
        }
    }
}

/// Whether `m` names an object `name` in the namespace `ns` that carries
/// `labels` and belongs to `owner`.
pub open spec fn meta_is(
    m: ObjectMeta,
    name: Seq<char>,
    ns: Seq<char>,
    labels: Map<Seq<char>, Seq<char>>,
    owner: OwnerReference,
) -> bool {
    &&& text::opt_view(m.name) == Some(name)
    &&& text::opt_view(m.namespace) == Some(ns)
    &&& objects::opt_texts(m.labels) == Some(labels)
    &&& m.owner_references is Some
    &&& m.owner_references->0@ == seq![owner]
}

/// The metadata of an object of the operator.
pub fn object_meta(name: &str, ns: &str, labels: &StrMap<String>, owner: OwnerReference) -> (m:
    ObjectMeta)
    ensures
        meta_is(m, name@, ns@, str_map::texts(*labels), owner),
{
    let owners: Vec<OwnerReference> = vec![owner];
    assert(owners@ =~= seq![owner]);
    ObjectMeta {
        name: Some(name.to_string()),
        namespace: Some(ns.to_string()),
        labels: Some(labels.clone()),
        owner_references: Some(owners),
    }
}

/// A selector of the pods that carry `labels`.
pub fn selector_of(labels: &StrMap<String>) -> (s: LabelSelector)
    ensures
        s@ == objects::selects(str_map::texts(*labels)),
{
    LabelSelector { match_expressions: None, match_labels: Some(labels.clone()) }
}

/// Whether `p` is the budget `spec` over the pods that carry `labels`.
pub open spec fn is_pdb(
    p: PodDisruptionBudget,
    name: Seq<char>,
    ns: Seq<char>,
    labels: Map<Seq<char>, Seq<char>>,
    owner: OwnerReference,
    spec: PodDisruptionBudgetSpec,
) -> bool {
    &&& meta_is(p.metadata, name, ns, labels, owner)
    &&& p.spec is Some
    &&& p.spec->0.min_available == spec.min_available
    &&& p.spec->0.max_unavailable == spec.max_unavailable
    &&& p.spec->0.unhealthy_pod_eviction_policy == spec.unhealthy_pod_eviction_policy
    &&& p.spec->0.selector is Some
    &&& p.spec->0.selector->0@ == objects::selects(labels)
}

/// The budget object that selects `labels`.
pub fn build_pdb(
    name: &str,
    ns: &str,
    labels: &StrMap<String>,
    owner: OwnerReference,
    spec: &PodDisruptionBudgetSpec,
) -> (p: PodDisruptionBudget)
    ensures
        is_pdb(p, name@, ns@, str_map::texts(*labels), owner, *spec),
{
    let PodDisruptionBudgetSpec { min_available, max_unavailable, unhealthy_pod_eviction_policy } =
        spec.clone();
    PodDisruptionBudget {
        metadata: object_meta(name, ns, labels, owner),
        spec: Some(
            PodDisruptionBudgetObjectSpec {
                min_available,
                max_unavailable,
                unhealthy_pod_eviction_policy,
                selector: Some(selector_of(labels)),
            },
        ),
    }
}

/// What the reconciliation of one budget goes by.
pub struct PdbRequest<'a> {
    /// Name of the budget, which is that of the stateful set it protects.
    pub name: &'a str,
    pub ns: &'a str,
    /// Labels that the budget selects: those of the pods of the set.
    pub labels: &'a StrMap<String>,
    pub owner: OwnerReference,
    /// What the user asks for, or the default. Nothing deletes the budget.
    pub desired: Option<PodDisruptionBudgetSpec>,
    /// Pods that the selector matches.
    pub total: i32,
    /// Pods that may be unavailable at once.
    pub safe_max_unavailable: i32,
}

/// Whether an event is a warning.
#[derive(Clone, Copy, Debug, PartialEq, Eq)]
pub enum EventType {
    Normal,
    Warning,
}

/// An event about an object.
#[derive(Debug, PartialEq, Eq)]
pub struct EventNote {
    pub type_: EventType,
    pub reason: String,
    pub note: String,
    pub action: String,
}

/// What is to be done to the live budget.
#[derive(Debug, PartialEq, Eq)]
pub enum PdbAction {
    /// Delete it; that it is already gone is fine.
    Delete,
    /// Leave it as it is.
    Keep,
    /// Put this one in its place.
    Apply(PodDisruptionBudget),
}

/// What is to be done about a budget: first the event, where there is one, and
/// then the action.
#[derive(Debug, PartialEq, Eq)]
pub struct PdbPlan {
    pub verdict: PdbVerdict,
    pub event: Option<EventNote>,
    pub action: PdbAction,
}

/// The outcome for a budget that may not be asked for.
pub open spec fn desired_verdict(
    desired: Option<PodDisruptionBudgetSpec>,
    total: int,
    safe: int,
) -> VerdictView {
    match desired {
        Some(spec) => verdict_of(spec, total, safe),
        None => VerdictView::Empty,
    }
}

/// The name of what the operator does when it speaks of a budget.
pub const PDB_EVENT_ACTION: &'static str = "ReconcilePodDisruptionBudget";

/// Whether `event` is what the outcome `v` warrants.
pub open spec fn is_verdict_event(event: Option<EventNote>, v: VerdictView) -> bool {
    match event {
        None => v.reason_view() is None,
        Some(e) => {
            &&& v.reason_view() == Some(e.reason@)
            &&& v.note_view() == Some(e.note@)
            &&& e.type_ == (if v is NotApplicable {
                EventType::Normal
            } else {
                EventType::Warning
            })
            &&& e.action@ == PDB_EVENT_ACTION@
        },
    }
}

/// Decides what becomes of a budget.
///
/// A budget that is refused is no failure: the live one stays as it is, for it
/// was applied after the same check, and tearing it down would strip protection
/// when the configuration broke. It is deleted only when no budget is wanted.
pub fn reconcile_pdb(req: PdbRequest<'_>) -> (plan: PdbPlan)
    requires
        req.desired matches Some(spec) ==> budget_fits(spec, req.total),
    ensures
        plan.verdict@ == desired_verdict(
            req.desired,
            req.total as int,
            req.safe_max_unavailable as int,
        ),
        is_verdict_event(plan.event, plan.verdict@),
        match plan.action {
            PdbAction::Delete => plan.verdict@ is Empty,
            PdbAction::Keep => plan.verdict@.refuses(),
            PdbAction::Apply(p) => plan.verdict@.applies() && req.desired is Some && is_pdb(
                p,
                req.name@,
                req.ns@,
                str_map::texts(*req.labels),
                req.owner,
                req.desired->0,
            ),
        },
{
    let spec = match req.desired {
        Some(spec) => spec,
        None => {
            return PdbPlan {
                verdict: PdbVerdict::Empty,
                event: None,
                action: PdbAction::Delete,
            };
        },
    };
    let verdict = validate_pdb(&spec, req.total, req.safe_max_unavailable);
    let event = match (verdict.reason(), verdict.note()) {
        (Some(reason), Some(note)) => {
            let type_ = match verdict {
                PdbVerdict::NotApplicable => EventType::Normal,
                _ => EventType::Warning,
            };
            Some(
                EventNote {
                    type_,
                    reason: reason.to_string(),
                    note,
                    action: PDB_EVENT_ACTION.to_string(),
                },
            )
        },
        _ => None,
    };
    let action = if verdict.should_apply() {
        PdbAction::Apply(build_pdb(req.name, req.ns, req.labels, req.owner, &spec))
    } else if verdict.is_refusal() {
        PdbAction::Keep
    } else {
        PdbAction::Delete
    };
    PdbPlan { verdict, event, action }
}

/// The default spread of the pods that carry `labels`.
pub open spec fn default_spread(labels: Map<Seq<char>, Seq<char>>) -> objects::SpreadView {
    objects::SpreadView {
        label_selector: Some(objects::selects(labels)),
        match_label_keys: None,
        max_skew: 1,
        min_domains: None,
        node_affinity_policy: None,
        node_taints_policy: None,
        topology_key: "kubernetes.io/hostname"@,
        when_unsatisfiable: "ScheduleAnyway"@,
    }
}

/// The default spread of a workload: its own pods over different hosts, as far
/// as that goes. A hard constraint would leave pods pending wherever there are
/// fewer hosts than pods.
pub fn default_topology_spread(labels: &StrMap<String>) -> (v: Vec<TopologySpreadConstraint>)
    ensures
        objects::spreads(v@) == seq![default_spread(str_map::texts(*labels))],
{
    let c = TopologySpreadConstraint {
        label_selector: Some(selector_of(labels)),
        match_label_keys: None,
        max_skew: 1,
        min_domains: None,
        node_affinity_policy: None,
        node_taints_policy: None,
        topology_key: "kubernetes.io/hostname".to_string(),
        when_unsatisfiable: "ScheduleAnyway".to_string(),
    };
    let v: Vec<TopologySpreadConstraint> = vec![c];
    assert(objects::spreads(v@) =~= seq![default_spread(str_map::texts(*labels))]);
    v
}

/// The spread of a workload: the default where the user says nothing, none for
/// an empty list, otherwise the user's list as it stands.
pub open spec fn effective_spread(
    user: Option<Vec<TopologySpreadConstraint>>,
    labels: Map<Seq<char>, Seq<char>>,
) -> Option<Seq<objects::SpreadView>> {
    match user {
        None => Some(seq![default_spread(labels)]),
        Some(v) => if v@.len() == 0 {
            None
        } else {
            Some(objects::spreads(v@))
        },
    }
}

/// The spread of a workload. An empty list gives no field at all, which releases
/// the ownership of it.
pub fn effective_topology_spread(
    user: Option<&Vec<TopologySpreadConstraint>>,
    labels: &StrMap<String>,
) -> (r: Option<Vec<TopologySpreadConstraint>>)
    ensures
        objects::opt_spreads(r) == effective_spread(pointee(user), str_map::texts(*labels)),
{
    match user {
        None => Some(default_topology_spread(labels)),
        Some(v) => if v.len() == 0 {
            None
        } else {
            Some(objects::clone_spreads(v))
        },
    }
}

/// Data are kept under `/data`. Snapshots are taken at the points that the user
/// gives, or that Redis defaults to, unless they or all persistence are off; the
/// append-only file is written unless it or all persistence is off, and synced every
/// second unless the user says otherwise.
pub proof fn lemma_persistence_is(p: PersistenceSpec)
    ensures
        ({
            let points = if !p.enabled || p.rdb is Some && !p.rdb->0.enabled {
                Seq::empty()
            } else if p.rdb is Some && p.rdb->0.save is Some {
                text::joined(text::owned_views(p.rdb->0.save->0@), " "@)
            } else {
                "3600 1 300 100 60 10000"@
            };
            let sync = if p.aof is Some && p.aof->0.fsync is Some {
                match p.aof->0.fsync->0 {
                    crate::crd::redis::FsyncPolicy::Always => "always"@,
                    crate::crd::redis::FsyncPolicy::Everysec => "everysec"@,
                    crate::crd::redis::FsyncPolicy::Never => "no"@,
                }
            } else {
                "everysec"@
            };
            let appended = p.enabled && !(p.aof is Some && !p.aof->0.enabled);
            persistence_flags(Some(p)) == " --dir /data --save \""@ + points + "\""@ + (
            if appended {
                " --appendonly yes --appendfsync "@ + sync
            } else {
                " --appendonly no"@
            })
        }),
{
    let flags = persistence_flags(Some(p));
    if aof_on(Some(p)) {
        assert(flags =~= " --dir /data --save \""@ + save_points(Some(p)) + "\""@ + (
        " --appendonly yes --appendfsync "@ + fsync_value(Some(p))));
    }
}

/// Pods are spread over hosts by the labels that they carry, as far as that goes,
/// unless the user says otherwise. An empty list of the user means no spread, and any
/// other is taken as it is.
pub proof fn lemma_spread_is(
    user: Option<Vec<TopologySpreadConstraint>>,
    labels: Map<Seq<char>, Seq<char>>,
)
    ensures
        user is None ==> {
            let s = effective_spread(user, labels);
            &&& s is Some && s->0.len() == 1
            &&& s->0[0].topology_key == "kubernetes.io/hostname"@
            &&& s->0[0].max_skew == 1
            &&& s->0[0].when_unsatisfiable == "ScheduleAnyway"@
            &&& s->0[0].label_selector is Some
            &&& s->0[0].label_selector->0.match_labels == Some(labels)
            &&& s->0[0].label_selector->0.match_expressions is None
        },
        user matches Some(v) ==> {
            &&& v@.len() == 0 ==> effective_spread(user, labels) is None
            &&& v@.len() > 0 ==> effective_spread(user, labels) == Some(
                v@.map_values(|c: TopologySpreadConstraint| c@),
            )
        },
{
}

/// Unless told otherwise, a server may have as much memory as it asks for, and more
/// processor time.
pub proof fn lemma_default_resources()
    ensures
        default_requests() == Map::<Seq<char>, Seq<char>>::empty().insert("cpu"@, "1200m"@).insert(
            "memory"@,
            "1Gi"@,
        ),
        default_limits() == Map::<Seq<char>, Seq<char>>::empty().insert("cpu"@, "2"@).insert(
            "memory"@,
            "1Gi"@,
        ),
{
}

/// What the operator says of a budget goes by the outcome: nothing where it is
/// applied as it should be or none is wanted, a note where it is applied in vain,
/// and a warning where it is refused.
pub proof fn lemma_outcome_told(event: Option<EventNote>, v: VerdictView)
    requires
        is_verdict_event(event, v),
    ensures
        event is None <==> v is Accepted || v is Empty,
        v.applies() <==> v is Accepted || v is NotApplicable,
        v.refuses() <==> v is BothSet || v is Unsafe || v is Unresolvable,
        event matches Some(e) ==> {
            &&& e.type_ == EventType::Normal <==> v is NotApplicable
            &&& e.type_ == EventType::Warning <==> v.refuses()
            &&& e.reason@ == "IneffectivePodDisruptionBudget"@ <==> v is NotApplicable
            &&& e.reason@ == "UnsafePodDisruptionBudget"@ <==> v is Unsafe
            &&& e.reason@ == "InvalidPodDisruptionBudget"@ <==> v is BothSet || v is Unresolvable
            &&& e.action@ == "ReconcilePodDisruptionBudget"@
        },
{
    reveal_strlit("IneffectivePodDisruptionBudget");
    reveal_strlit("UnsafePodDisruptionBudget");
    reveal_strlit("InvalidPodDisruptionBudget");
    assert("IneffectivePodDisruptionBudget"@.len() == 30);
    assert("UnsafePodDisruptionBudget"@.len() == 25);
    assert("InvalidPodDisruptionBudget"@.len() == 26);
}

/// How the deletion of an object failed: with the status that the API server
/// answered, or without an answer.
#[derive(Clone, Copy, Debug, PartialEq, Eq)]
pub enum DeleteFailure {
    Status(u16),
    NoAnswer,
}

/// What is left of the outcome of a deletion: that the object is already gone
/// is as good as its deletion.
pub fn delete_if_exists(res: std::result::Result<(), DeleteFailure>) -> (r: std::result::Result<
    (),
    DeleteFailure,
>)
    ensures
        r == (if res == Err::<(), DeleteFailure>(DeleteFailure::Status(404)) {
            Ok(())
        } else {
            res
        }),
{
    match res {
        Err(DeleteFailure::Status(code)) => if code == 404 {
            Ok(())
        } else {
            Err(DeleteFailure::Status(code))
        },
        other => other,
    }
}

} // verus!
