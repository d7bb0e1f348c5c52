//! Which pods are scraped, and what is exported of them.

use vstd::prelude::*;

use super::catalogue;
use super::catalogue::{InfoMetric, Kind, MetricView, StatusMetric, StatusView};
use super::info;
use super::info::{Info, KeyspaceView, MasterView, SentinelMaster};
use crate::controller;
use crate::number;
use crate::order;
use crate::str_map::StrMap;
use crate::text;

verus! {

/// Where data pods listen.
pub const REDIS_PORT: u16 = 6379;

/// Where Sentinel pods listen.
pub const SENTINEL_PORT: u16 = 26379;

/// Every pod of the operator carries this label.
pub const MANAGED_SELECTOR: &'static str = "app.kubernetes.io/managed-by=redis-operator";

/// What identifies a scraped instance. Its own name is not called `instance`,
/// which Prometheus claims for itself.
#[derive(Debug, PartialEq, Eq)]
pub struct InstanceLabels {
    pub namespace: String,
    pub pod: String,
    pub instance_name: String,
    /// `redis`, `rediscluster` or `sentinel`.
    pub kind: &'static str,
}

#[verifier::ext_equal]
pub ghost struct LabelsView {
    pub namespace: Seq<char>,
    pub pod: Seq<char>,
    pub instance_name: Seq<char>,
    pub kind: Seq<char>,
}

impl View for InstanceLabels {
    type V = LabelsView;

    open spec fn view(&self) -> LabelsView {
        LabelsView {
            namespace: self.namespace@,
            pod: self.pod@,
            instance_name: self.instance_name@,
            kind: self.kind@,
        }
    }
}

impl LabelsView {
    /// The labels in the order in which they are exported.
    pub open spec fn encoded(self) -> Seq<(Seq<char>, Seq<char>)> {
        seq![
            ("namespace"@, self.namespace),
            ("pod"@, self.pod),
            ("instance_name"@, self.instance_name),
            ("kind"@, self.kind),
        ]
    }
}

/// What a list of labels holds.
pub open spec fn labels_view(v: Seq<(String, String)>) -> Seq<(Seq<char>, Seq<char>)> {
    v.map_values(|p: (String, String)| (p.0@, p.1@))
}

impl InstanceLabels {
    /// The labels in the order in which they are exported.
    pub fn encode(&self) -> (v: Vec<(String, String)>)
        ensures
            labels_view(v@) == self@.encoded(),
    {
        let v: Vec<(String, String)> = vec![
            ("namespace".to_string(), self.namespace.clone()),
            ("pod".to_string(), self.pod.clone()),
            ("instance_name".to_string(), self.instance_name.clone()),
            ("kind".to_string(), self.kind.to_string()),
        ];
        assert(labels_view(v@) =~= self@.encoded());
        v
    }
}

impl Clone for InstanceLabels {
    fn clone(&self) -> (r: Self)
        ensures
            r@ == self@,
    {
        InstanceLabels {
            namespace: self.namespace.clone(),
            pod: self.pod.clone(),
            instance_name: self.instance_name.clone(),
            kind: self.kind,
        }
    }
}

/// What decides whether a pod is scraped.
#[derive(Debug, PartialEq, Eq)]
pub struct PodFacts {
    pub name: String,
    pub namespace: Option<String>,
    /// Whether the pod is being deleted.
    pub terminating: bool,
    pub phase: Option<String>,
    /// The address of the pod, where it has one that can be dialled.
    pub ip: Option<String>,
    pub labels: StrMap<String>,
}

/// A pod worth dialling.
#[derive(Debug, PartialEq, Eq)]
pub struct Target {
    pub ip: String,
    pub port: u16,
    pub labels: InstanceLabels,
}

/// The value of a label.
pub open spec fn label_of(labels: StrMap<String>, key: Seq<char>) -> Option<Seq<char>> {
    if labels@.contains_key(key) {
        Some(labels@[key]@)
    } else {
        None
    }
}

/// What the application that a pod belongs to is exported as, and where it
/// listens.
pub open spec fn kind_and_port(app: Option<Seq<char>>) -> Option<(Seq<char>, u16)> {
    match app {
        Some(a) => if a == "redis"@ {
            Some(("redis"@, REDIS_PORT))
        } else if a == "redis-cluster"@ {
            Some(("rediscluster"@, REDIS_PORT))
        } else if a == "redis-sentinel"@ {
            Some(("sentinel"@, SENTINEL_PORT))
        } else {
            None
        },
        None => None,
    }
}

/// Whether a pod is scraped: it runs, is not going away, has an address, and its
/// labels say that it is one of the operator's.
pub open spec fn is_target(pod: PodFacts) -> bool {
    &&& !pod.terminating
    &&& text::opt_view(pod.phase) == Some("Running"@)
    &&& pod.ip is Some
    &&& label_of(pod.labels, "app.kubernetes.io/managed-by"@) == Some(controller::FIELD_MANAGER@)
    &&& kind_and_port(label_of(pod.labels, "app.kubernetes.io/name"@)) is Some
    &&& label_of(pod.labels, "app.kubernetes.io/instance"@) is Some
    &&& pod.namespace is Some
}

/// The application of a pod and its port, where it is one of the operator's.
fn known_app(app: &str) -> (r: Option<(&'static str, u16)>)
    ensures
        match r {
            Some((kind, port)) => kind_and_port(Some(app@)) == Some((kind@, port)),
            None => kind_and_port(Some(app@)) is None,
        },
{
    if text::same(app, "redis") {
        Some(("redis", REDIS_PORT))
    } else if text::same(app, "redis-cluster") {
        Some(("rediscluster", REDIS_PORT))
    } else if text::same(app, "redis-sentinel") {
        Some(("sentinel", SENTINEL_PORT))
    } else {
        None
    }
}

/// The target that a pod is, where it is one. A pod that is not ready to be
/// dialled gives no series at all, which is not the same as one that does not
/// answer: a pod that is going away would only flap.
pub fn target_from_pod(pod: &PodFacts) -> (r: Option<Target>)
    ensures
        r is Some <==> is_target(*pod),
        r matches Some(t) ==> {
            let kp = kind_and_port(label_of(pod.labels, "app.kubernetes.io/name"@))->0;
            &&& t.ip == pod.ip->0
            &&& t.port == kp.1
            &&& t.labels@ == (LabelsView {
                namespace: pod.namespace->0@,
                pod: pod.name@,
                instance_name: label_of(pod.labels, "app.kubernetes.io/instance"@)->0,
                kind: kp.0,
            })
        },
{
    if pod.terminating {
        return None;
    }
    match &pod.phase {
        Some(p) => {
            if !text::same(p, "Running") {
                return None;
            }
        },
        None => {
            return None;
        },
    }
    let ip = match &pod.ip {
        Some(ip) => ip,
        None => {
            return None;
        },
    };
    match pod.labels.get("app.kubernetes.io/managed-by") {
        Some(m) => {
            if !text::same(m, controller::FIELD_MANAGER) {
                return None;
            }
        },
        None => {
            return None;
        },
    }
    let (kind, port) = match pod.labels.get("app.kubernetes.io/name") {
        Some(app) => match known_app(app) {
            Some(k) => k,
            None => {
                return None;
            },
        },
        None => {
            return None;
        },
    };
    let instance_name = match pod.labels.get("app.kubernetes.io/instance") {
        Some(i) => i.clone(),
        None => {
            return None;
        },
    };
    let namespace = match &pod.namespace {
        Some(n) => n.clone(),
        None => {
            return None;
        },
    };
    Some(
        Target {
            ip: ip.clone(),
            port,
            labels: InstanceLabels { namespace, pod: pod.name.clone(), instance_name, kind },
        },
    )
}

/// What was last seen of an instance. One that did not answer is kept, for
/// nothing is as important to say as that.
#[derive(Debug)]
pub struct Instance {
    pub labels: InstanceLabels,
    pub up: bool,
    /// How long it took to find out.
    pub scrape_nanos: u64,
    pub info: Option<Info>,
}

pub ghost struct InstanceView {
    pub labels: LabelsView,
    pub up: bool,
    pub scrape_nanos: u64,
    pub info: Option<Map<Seq<char>, Seq<char>>>,
}

impl View for Instance {
    type V = InstanceView;

    open spec fn view(&self) -> InstanceView {
        InstanceView {
            labels: self.labels@,
            up: self.up,
            scrape_nanos: self.scrape_nanos,
            info: match self.info {
                Some(i) => Some(i@),
                None => None,
            },
        }
    }
}

/// What a list of instances holds.
pub open spec fn instances_view(v: Seq<Instance>) -> Seq<InstanceView> {
    v.map_values(|i: Instance| i@)
}

impl InstanceView {
    /// The role that the instance reports of itself, `slave` as `replica`.
    pub open spec fn role_view(self) -> Option<Seq<char>> {
        match self.info {
            Some(m) => if m.contains_key("role"@) {
                Some(
                    if m["role"@] == "slave"@ {
                        "replica"@
                    } else {
                        m["role"@]
                    },
                )
            } else {
                None
            },
            None => None,
        }
    }
}

impl Clone for Instance {
    fn clone(&self) -> (r: Self)
        ensures
            r@ == self@,
    {
        Instance {
            labels: self.labels.clone(),
            up: self.up,
            scrape_nanos: self.scrape_nanos,
            info: match &self.info {
                Some(i) => Some(i.clone()),
                None => None,
            },
        }
    }
}

impl Instance {
    /// The role that the instance reports of itself. It knows better than the
    /// label that the operator last put on its pod.
    pub fn role(&self) -> (r: Option<&str>)
        ensures
            text::opt_str_view(r) == self@.role_view(),
    {
        match &self.info {
            Some(i) => match i.get("role") {
                Some(r) => if text::same(r, "slave") {
                    Some("replica")
                } else {
                    Some(r)
                },
                None => None,
            },
            None => None,
        }
    }
}

/// What a scrape that took `nanos` has found out about a target: its reply, or
/// that there was none.
pub fn scraped(labels: InstanceLabels, nanos: u64, reply: Option<&str>) -> (i: Instance)
    ensures
        i.labels == labels,
        i.scrape_nanos == nanos,
        i.up == (reply is Some),
        i.info is Some <==> reply is Some,
        reply matches Some(t) ==> i.info->0@ == info::fields_of(text::line_seq(t@)),
{
    match reply {
        Some(t) => Instance { labels, up: true, scrape_nanos: nanos, info: Some(Info::parse(t)) },
        None => Instance { labels, up: false, scrape_nanos: nanos, info: None },
    }
}

/// What one round of scrapes has found out. It replaces what was found before,
/// so that a pod that is gone is no longer exported.
#[derive(Debug)]
pub struct Snapshot {
    pub instances: Vec<Instance>,
}

impl Default for Snapshot {
    fn default() -> (s: Self)
        ensures
            s.instances@.len() == 0,
    {
        Snapshot { instances: Vec::new() }
    }
}

/// How instances are polled.
#[derive(Debug, Clone, Copy, PartialEq, Eq)]
pub struct PollConfig {
    pub interval_seconds: u64,
    pub scrape_timeout_seconds: u64,
    pub concurrency: usize,
}

/// How instances are polled; at least one at a time.
pub fn poll_config(poll_seconds: u64, timeout_seconds: u64, concurrency: usize) -> (c: PollConfig)
    ensures
        c.interval_seconds == poll_seconds,
        c.scrape_timeout_seconds == timeout_seconds,
        c.concurrency == (if concurrency == 0 {
            1
        } else {
            concurrency
        }),
{
    PollConfig {
        interval_seconds: poll_seconds,
        scrape_timeout_seconds: timeout_seconds,
        concurrency: if concurrency == 0 {
            1
        } else {
            concurrency
        },
    }
}

/// By what instances are sorted: namespace, then pod.
pub open spec fn pod_keys(v: Seq<InstanceView>) -> Seq<Seq<Seq<char>>> {
    v.map_values(|i: InstanceView| seq![i.labels.namespace, i.labels.pod])
}

/// The instances `v` in the order `perm`.
pub open spec fn arranged(v: Seq<InstanceView>, perm: Seq<usize>) -> Seq<InstanceView> {
    perm.map_values(|i: usize| v[i as int])
}

/// The number of instances that did not answer.
pub open spec fn down_count(v: Seq<InstanceView>) -> int
    decreases v.len(),
{
    if v.len() == 0 {
        0
    } else {
        down_count(v.drop_last()) + (if v.last().up {
            0int
        } else {
            1
        })
    }
}

/// What is made of a round of scrapes.
#[derive(Debug)]
pub struct PollResult {
    pub snapshot: Snapshot,
    pub targets: usize,
    pub failures: usize,
}

/// Makes a snapshot of a round of scrapes, which came in in any order: sorted by
/// namespace and pod, so that two expositions can be compared.
pub fn settle_poll(instances: Vec<Instance>) -> (r: PollResult)
    ensures
        r.targets == instances@.len(),
        r.failures == down_count(instances_view(instances@)),
        exists|perm: Seq<usize>| #[trigger]
            order::is_stable_order(pod_keys(instances_view(instances@)), perm) && instances_view(
                r.snapshot.instances@,
            ) == arranged(instances_view(instances@), perm),
{
    let ghost all = instances_view(instances@);
    let n: usize = instances.len();
    let mut keys: Vec<Vec<&str>> = Vec::new();
    let mut failures: usize = 0;
    let mut i: usize = 0;
    assert(all.take(0) =~= Seq::<InstanceView>::empty());
    while i < n
        invariant
            n == instances.len(),
            i <= n,
            all == instances_view(instances@),
            order::key_views(keys@) == pod_keys(all).take(i as int),
            failures <= i,
            failures == down_count(all.take(i as int)),
        decreases n - i,
    {
        let ghost before = keys@;
        let key: Vec<&str> = vec![
            instances[i].labels.namespace.as_str(),
            instances[i].labels.pod.as_str(),
        ];
        proof {
            assert(all[i as int] == instances[i as int]@);
            assert(text::views(key@) =~= seq![
                all[i as int].labels.namespace,
                all[i as int].labels.pod,
            ]);
            assert(all.take(i + 1).drop_last() =~= all.take(i as int));
        }
        keys.push(key);
        assert(order::key_views(keys@) =~= order::key_views(before).push(text::views(key@)));
        assert(order::key_views(keys@) =~= pod_keys(all).take(i + 1));
        if !instances[i].up {
            failures = failures + 1;
        }
        i = i + 1;
    }
    assert(pod_keys(all).take(n as int) =~= pod_keys(all));
    assert(all.take(n as int) =~= all);
    let perm = order::stable_order(&keys);
    let mut out: Vec<Instance> = Vec::new();
    let mut j: usize = 0;
    while j < n
        invariant
            n == instances.len(),
            n == perm.len(),
            j <= n,
            all == instances_view(instances@),
            forall|a: int| 0 <= a < perm.len() ==> 0 <= #[trigger] perm[a] < n,
            instances_view(out@) == arranged(all, perm@).take(j as int),
        decreases n - j,
    {
        let ghost before = out@;
        let k: usize = perm[j];
        assert(all[k as int] == instances[k as int]@);
        let c = instances[k].clone();
        out.push(c);
        assert(instances_view(out@) =~= instances_view(before).push(c@));
        assert(instances_view(out@) =~= arranged(all, perm@).take(j + 1));
        j = j + 1;
    }
    assert(instances_view(out@) =~= arranged(all, perm@));
    PollResult { snapshot: Snapshot { instances: out }, targets: n, failures }
}

/// The type of an exported family.
#[derive(Debug, Clone, Copy, PartialEq, Eq)]
pub enum FamilyKind {
    Gauge,
    Counter,
    /// Labels that say more about an instance.
    Info,
}

/// The value of a sample.
#[derive(Debug, PartialEq, Eq)]
pub enum SampleValue {
    Integer(i64),
    /// A duration, exported in seconds.
    Nanoseconds(u64),
    /// The text of a floating-point number.
    Number(String),
    /// The labels of an info metric.
    Details(Vec<(String, String)>),
}

/// One series of a family.
#[derive(Debug, PartialEq, Eq)]
pub struct Sample {
    pub labels: Vec<(String, String)>,
    pub value: SampleValue,
}

/// A family of series.
#[derive(Debug, PartialEq, Eq)]
pub struct MetricFamily {
    pub name: &'static str,
    pub help: &'static str,
    pub kind: FamilyKind,
    pub samples: Vec<Sample>,
}

#[verifier::ext_equal]
pub ghost enum ValueView {
    Integer(i64),
    Nanoseconds(u64),
    Number(Seq<char>),
    Details(Seq<(Seq<char>, Seq<char>)>),
}

#[verifier::ext_equal]
pub ghost struct SampleView {
    pub labels: Seq<(Seq<char>, Seq<char>)>,
    pub value: ValueView,
}

#[verifier::ext_equal]
pub ghost struct FamilyView {
    pub name: Seq<char>,
    pub help: Seq<char>,
    pub kind: FamilyKind,
    pub samples: Seq<SampleView>,
}

impl View for SampleValue {
    type V = ValueView;

    open spec fn view(&self) -> ValueView {
        match *self {
            SampleValue::Integer(n) => ValueView::Integer(n),
            SampleValue::Nanoseconds(n) => ValueView::Nanoseconds(n),
            SampleValue::Number(s) => ValueView::Number(s@),
            SampleValue::Details(v) => ValueView::Details(labels_view(v@)),
        }
    }
}

impl View for Sample {
    type V = SampleView;

    open spec fn view(&self) -> SampleView {
        SampleView { labels: labels_view(self.labels@), value: self.value@ }
    }
}

/// What a list of samples holds.
pub open spec fn samples_view(v: Seq<Sample>) -> Seq<SampleView> {
    v.map_values(|s: Sample| s@)
}

impl View for MetricFamily {
    type V = FamilyView;

    open spec fn view(&self) -> FamilyView {
        FamilyView {
            name: self.name@,
            help: self.help@,
            kind: self.kind,
            samples: samples_view(self.samples@),
        }
    }
}

/// What a list of families holds.
pub open spec fn families_view(v: Seq<MetricFamily>) -> Seq<FamilyView> {
    v.map_values(|f: MetricFamily| f@)
}

/// 1 for true, 0 for false.
pub open spec fn flag(b: bool) -> ValueView {
    ValueView::Integer(
        if b {
            1
        } else {
            0
        },
    )
}

/// What a family exports of one instance.
pub ghost enum Series {
    /// Whether it answered.
    Up,
    /// How long the scrape took.
    Duration,
    /// Version, mode and role.
    Identity,
    /// A field that holds a number.
    Field { key: Seq<char> },
    /// Whether a field holds the good word.
    Status { key: Seq<char>, ok_value: Seq<char> },
    /// The keys of each database.
    Keys,
    /// The keys of each database that expire.
    Expiring,
    /// Whether each monitored primary is well.
    MasterOk,
    /// The replicas of each monitored primary.
    MasterReplicas,
    /// The sentinels of each monitored primary.
    MasterSentinels,
}

/// Databases of an instance that are exported at most.
pub const MAX_KEYSPACE_DBS: usize = 16;

/// The databases of a reply that are exported.
pub open spec fn exported_dbs(m: Map<Seq<char>, Seq<char>>) -> Seq<KeyspaceView> {
    let all = info::dbs_of(info::sorted_entries(m));
    if all.len() > MAX_KEYSPACE_DBS {
        all.take(MAX_KEYSPACE_DBS as int)
    } else {
        all
    }
}

/// The value of a field, empty where there is none.
pub open spec fn field_or_empty(m: Map<Seq<char>, Seq<char>>, key: Seq<char>) -> Seq<char> {
    if m.contains_key(key) {
        m[key]
    } else {
        Seq::empty()
    }
}

/// Version, mode and role of an instance.
pub open spec fn identity(i: InstanceView, m: Map<Seq<char>, Seq<char>>) -> Seq<
    (Seq<char>, Seq<char>),
> {
    seq![
        (
            "role"@,
            match i.role_view() {
                Some(r) => r,
                None => Seq::empty(),
            },
        ),
        ("redis_version"@, field_or_empty(m, "redis_version"@)),
        ("redis_mode"@, field_or_empty(m, "redis_mode"@)),
    ]
}

/// The samples of a series of one instance.
pub open spec fn samples_of(s: Series, i: InstanceView) -> Seq<SampleView> {
    let labels = i.labels.encoded();
    match s {
        Series::Up => seq![SampleView { labels, value: flag(i.up) }],
        Series::Duration => seq![
            SampleView { labels, value: ValueView::Nanoseconds(i.scrape_nanos) },
        ],
        _ => match i.info {
            None => Seq::empty(),
            Some(m) => match s {
                Series::Identity => seq![
                    SampleView { labels, value: ValueView::Details(identity(i, m)) },
                ],
                Series::Field { key } => match info::number_in(m, key) {
                    Some(n) => seq![SampleView { labels, value: ValueView::Number(n) }],
                    None => Seq::empty(),
                },
                Series::Status { key, ok_value } => match info::word_in(m, key, ok_value) {
                    Some(ok) => seq![SampleView { labels, value: flag(ok) }],
                    None => Seq::empty(),
                },
                Series::Keys => exported_dbs(m).map_values(
                    |d: KeyspaceView|
                        SampleView {
                            labels: labels.push(("db"@, d.db)),
                            value: ValueView::Integer(d.keys as i64),
                        },
                ),
                Series::Expiring => exported_dbs(m).map_values(
                    |d: KeyspaceView|
                        SampleView {
                            labels: labels.push(("db"@, d.db)),
                            value: ValueView::Integer(d.expires as i64),
                        },
                ),
                Series::MasterOk => info::masters_of(info::sorted_entries(m)).map_values(
                    |p: MasterView|
                        SampleView { labels: labels.push(("master"@, p.name)), value: flag(p.ok) },
                ),
                Series::MasterReplicas => info::masters_of(info::sorted_entries(m)).map_values(
                    |p: MasterView|
                        SampleView {
                            labels: labels.push(("master"@, p.name)),
                            value: ValueView::Integer(p.slaves as i64),
                        },
                ),
                Series::MasterSentinels => info::masters_of(info::sorted_entries(m)).map_values(
                    |p: MasterView|
                        SampleView {
                            labels: labels.push(("master"@, p.name)),
                            value: ValueView::Integer(p.sentinels as i64),
                        },
                ),
                _ => Seq::empty(),
            },
        },
    }
}

/// The samples of a series of all instances, one instance behind the other.
pub open spec fn all_samples(s: Series, v: Seq<InstanceView>) -> Seq<SampleView>
    decreases v.len(),
{
    if v.len() == 0 {
        Seq::empty()
    } else {
        all_samples(s, v.drop_last()) + samples_of(s, v.last())
    }
}

/// The family of a catalogued field.
pub open spec fn field_family(m: MetricView, v: Seq<InstanceView>) -> FamilyView {
    FamilyView {
        name: m.name,
        help: m.help,
        kind: match m.kind {
            Kind::Gauge => FamilyKind::Gauge,
            Kind::Counter => FamilyKind::Counter,
        },
        samples: all_samples(Series::Field { key: m.key }, v),
    }
}

/// The family of a catalogued word.
pub open spec fn status_family(m: StatusView, v: Seq<InstanceView>) -> FamilyView {
    FamilyView {
        name: m.name,
        help: m.help,
        kind: FamilyKind::Gauge,
        samples: all_samples(Series::Status { key: m.key, ok_value: m.ok_value }, v),
    }
}

/// A family of gauges.
pub open spec fn gauge_family(
    name: Seq<char>,
    help: Seq<char>,
    s: Series,
    v: Seq<InstanceView>,
) -> FamilyView {
    FamilyView { name, help, kind: FamilyKind::Gauge, samples: all_samples(s, v) }
}

/// The families that come before the catalogue. Identity is a family of its own
/// rather than labels on every series: the role changes on failover, and a
/// counter that moved to another series would look as if it had been reset.
pub open spec fn leading_families(v: Seq<InstanceView>) -> Seq<FamilyView> {
    seq![
        gauge_family(
            "redis_up"@,
            "1 when the most recent INFO scrape of this pod succeeded"@,
            Series::Up,
            v,
        ),
        gauge_family(
            "redis_scrape_duration_seconds"@,
            "Seconds the operator spent on the most recent INFO scrape of this pod"@,
            Series::Duration,
            v,
        ),
        FamilyView {
            name: "redis_instance"@,
            help: "Version, mode, and replication role of this instance"@,
            kind: FamilyKind::Info,
            samples: all_samples(Series::Identity, v),
        },
    ]
}

/// The families that come behind the catalogue.
pub open spec fn trailing_families(v: Seq<InstanceView>) -> Seq<FamilyView> {
    seq![
        gauge_family("redis_db_keys"@, "Keys held in this database"@, Series::Keys, v),
        gauge_family(
            "redis_db_keys_expiring"@,
            "Keys in this database that carry a TTL"@,
            Series::Expiring,
            v,
        ),
        gauge_family(
            "redis_sentinel_master_ok"@,
            "1 when this sentinel considers the monitored master healthy"@,
            Series::MasterOk,
            v,
        ),
        gauge_family(
            "redis_sentinel_master_replicas"@,
            "Replicas this sentinel sees attached to the monitored master"@,
            Series::MasterReplicas,
            v,
        ),
        gauge_family(
            "redis_sentinel_master_sentinels"@,
            "Other sentinels this sentinel sees monitoring the same master"@,
            Series::MasterSentinels,
            v,
        ),
    ]
}

/// The families of catalogued fields.
pub open spec fn field_families(ms: Seq<MetricView>, v: Seq<InstanceView>) -> Seq<FamilyView> {
    ms.map_values(|m: MetricView| field_family(m, v))
}

/// The families of catalogued words.
pub open spec fn status_families(ms: Seq<StatusView>, v: Seq<InstanceView>) -> Seq<FamilyView> {
    ms.map_values(|m: StatusView| status_family(m, v))
}

/// The families of everything that is catalogued.
#[verifier::opaque]
pub open spec fn catalogued_families(v: Seq<InstanceView>) -> Seq<FamilyView> {
    field_families(catalogue::redis_catalogue(), v) + field_families(
        catalogue::sentinel_catalogue(),
        v,
    ) + status_families(catalogue::status_catalogue(), v)
}

/// All families that there can be, in the order in which they are exported.
pub open spec fn possible_families(v: Seq<InstanceView>) -> Seq<FamilyView> {
    leading_families(v) + catalogued_families(v) + trailing_families(v)
}

/// `fs` with `f` behind them, where that has samples.
pub open spec fn kept(fs: Seq<FamilyView>, f: FamilyView) -> Seq<FamilyView> {
    if f.samples.len() > 0 {
        fs.push(f)
    } else {
        fs
    }
}

/// The families among `fs` that have samples.
pub open spec fn with_samples(fs: Seq<FamilyView>) -> Seq<FamilyView>
    decreases fs.len(),
{
    if fs.len() == 0 {
        Seq::empty()
    } else {
        kept(with_samples(fs.drop_last()), fs.last())
    }
}

/// What is exported of the instances `v`: the families that have samples. A field
/// that an instance does not report is not made up.
pub open spec fn exported(v: Seq<InstanceView>) -> Seq<FamilyView> {
    with_samples(possible_families(v))
}

/// What a family exports of one instance.
#[derive(Debug, Clone, Copy)]
enum Wanted<'a> {
    Up,
    Duration,
    Identity,
    Field(&'a str),
    Status(&'a str, &'a str),
    Keys,
    Expiring,
    MasterOk,
    MasterReplicas,
    MasterSentinels,
}

impl<'a> Wanted<'a> {
    spec fn series(self) -> Series {
        match self {
            Wanted::Up => Series::Up,
            Wanted::Duration => Series::Duration,
            Wanted::Identity => Series::Identity,
            Wanted::Field(key) => Series::Field { key: key@ },
            Wanted::Status(key, ok_value) => Series::Status { key: key@, ok_value: ok_value@ },
            Wanted::Keys => Series::Keys,
            Wanted::Expiring => Series::Expiring,
            Wanted::MasterOk => Series::MasterOk,
            Wanted::MasterReplicas => Series::MasterReplicas,
            Wanted::MasterSentinels => Series::MasterSentinels,
        }
    }
}

/// One sample.
fn one(labels: Vec<(String, String)>, value: SampleValue) -> (v: Vec<Sample>)
    ensures
        samples_view(v@) == seq![SampleView { labels: labels_view(labels@), value: value@ }],
{
    let s = Sample { labels, value };
    let v: Vec<Sample> = vec![s];
    assert(samples_view(v@) =~= seq![s@]);
    v
}

/// 1 for true, 0 for false.
fn flag_value(b: bool) -> (v: SampleValue)
    ensures
        v@ == flag(b),
{
    SampleValue::Integer(
        if b {
            1
        } else {
            0
        },
    )
}

/// The labels of an instance and one more.
fn labels_with(labels: &InstanceLabels, key: &str, value: &str) -> (v: Vec<(String, String)>)
    ensures
        labels_view(v@) == labels@.encoded().push((key@, value@)),
{
    let mut v = labels.encode();
    let ghost before = v@;
    let k = key.to_string();
    let x = value.to_string();
    v.push((k, x));
    assert(labels_view(v@) =~= labels_view(before).push((k@, x@)));
    v
}

/// The samples of the databases of an instance.
fn db_samples(inst: &Instance, info: &Info, expiring: bool) -> (out: Vec<Sample>)
    requires
        inst@.info == Some(info@),
    ensures
        samples_view(out@) == samples_of(
            if expiring {
                Series::Expiring
            } else {
                Series::Keys
            },
            inst@,
        ),
{
    let dbs = info.keyspace();
    let ghost all = info::dbs_view(dbs@);
    let ghost want = samples_of(
        if expiring {
            Series::Expiring
        } else {
            Series::Keys
        },
        inst@,
    );
    let n: usize = if dbs.len() > MAX_KEYSPACE_DBS {
        MAX_KEYSPACE_DBS
    } else {
        dbs.len()
    };
    let mut out: Vec<Sample> = Vec::new();
    let mut i: usize = 0;
    assert(all.len() == dbs.len());
    assert(exported_dbs(info@) =~= all.take(n as int));
    assert(want.len() == n);
    while i < n
        invariant
            n <= dbs.len(),
            i <= n,
            all == info::dbs_view(dbs@),
            inst@.info == Some(info@),
            want.len() == n,
            exported_dbs(info@) == all.take(n as int),
            want == samples_of(
                if expiring {
                    Series::Expiring
                } else {
                    Series::Keys
                },
                inst@,
            ),
            samples_view(out@) == want.take(i as int),
        decreases n - i,
    {
        let ghost before = out@;
        let d = &dbs[i];
        assert(all.take(n as int)[i as int] == d@);
        let s = Sample {
            labels: labels_with(&inst.labels, "db", &d.db),
            value: SampleValue::Integer(
                if expiring {
                    d.expires as i64
                } else {
                    d.keys as i64
                },
            ),
        };
        assert(s@ =~= want[i as int]);
        out.push(s);
        assert(samples_view(out@) =~= samples_view(before).push(s@));
        assert(want.take(i + 1) =~= want.take(i as int).push(s@));
        i = i + 1;
    }
    assert(want.take(n as int) =~= want);
    out
}

/// What is exported of a monitored primary.
fn master_value(w: Wanted<'_>, m: &SentinelMaster) -> (v: SampleValue)
    ensures
        v@ == (match w {
            Wanted::MasterOk => flag(m.ok),
            Wanted::MasterReplicas => ValueView::Integer(m.slaves as i64),
            _ => ValueView::Integer(m.sentinels as i64),
        }),
{
    match w {
        Wanted::MasterOk => flag_value(m.ok),
        Wanted::MasterReplicas => SampleValue::Integer(m.slaves as i64),
        _ => SampleValue::Integer(m.sentinels as i64),
    }
}

/// The samples of the primaries that an instance monitors.
fn master_samples(inst: &Instance, info: &Info, w: Wanted<'_>) -> (out: Vec<Sample>)
    requires
        inst@.info == Some(info@),
        w is MasterOk || w is MasterReplicas || w is MasterSentinels,
    ensures
        samples_view(out@) == samples_of(w.series(), inst@),
{
    let masters = info.sentinel_masters();
    let ghost all = info::masters_view(masters@);
    let ghost want = samples_of(w.series(), inst@);
    let n: usize = masters.len();
    let mut out: Vec<Sample> = Vec::new();
    let mut i: usize = 0;
    assert(all.len() == n);
    assert(want.len() == n);
    while i < n
        invariant
            n == masters.len(),
            i <= n,
            all == info::masters_view(masters@),
            all == info::masters_of(info::sorted_entries(info@)),
            inst@.info == Some(info@),
            w is MasterOk || w is MasterReplicas || w is MasterSentinels,
            want.len() == n,
            want == samples_of(w.series(), inst@),
            samples_view(out@) == want.take(i as int),
        decreases n - i,
    {
        let ghost before = out@;
        let m = &masters[i];
        assert(all[i as int] == m@);
        let s = Sample {
            labels: labels_with(&inst.labels, "master", &m.name),
            value: master_value(w, m),
        };
        assert(s@ =~= want[i as int]);
        out.push(s);
        assert(samples_view(out@) =~= samples_view(before).push(s@));
        assert(want.take(i + 1) =~= want.take(i as int).push(s@));
        i = i + 1;
    }
    assert(want.take(n as int) =~= want);
    out
}

/// The value of a field, empty where there is none.
fn field_text(info: &Info, key: &str) -> (s: String)
    ensures
        s@ == field_or_empty(info@, key@),
{
    match info.get(key) {
        Some(v) => v.to_string(),
        None => {
            let s = String::new();
            assert(s@ =~= Seq::<char>::empty());
            s
        },
    }
}

/// Version, mode and role of an instance.
fn details(inst: &Instance, info: &Info) -> (v: Vec<(String, String)>)
    requires
        inst@.info == Some(info@),
    ensures
        labels_view(v@) == identity(inst@, info@),
{
    let role = match inst.role() {
        Some(r) => r.to_string(),
        None => {
            let s = String::new();
            assert(s@ =~= Seq::<char>::empty());
            s
        },
    };
    let v: Vec<(String, String)> = vec![
        ("role".to_string(), role),
        ("redis_version".to_string(), field_text(info, "redis_version")),
        ("redis_mode".to_string(), field_text(info, "redis_mode")),
    ];
    assert(labels_view(v@) =~= identity(inst@, info@));
    v
}

/// The samples of a series of one instance.
fn instance_samples(w: Wanted<'_>, inst: &Instance) -> (out: Vec<Sample>)
    ensures
        samples_view(out@) == samples_of(w.series(), inst@),
{
    match w {
        Wanted::Up => {
            return one(inst.labels.encode(), flag_value(inst.up));
        },
        Wanted::Duration => {
            return one(inst.labels.encode(), SampleValue::Nanoseconds(inst.scrape_nanos));
        },
        _ => {},
    }
    let none: Vec<Sample> = Vec::new();
    assert(samples_view(none@) =~= Seq::<SampleView>::empty());
    let info = match &inst.info {
        Some(i) => i,
        None => {
            return none;
        },
    };
    assert(inst@.info == Some(info@));
    match w {
        Wanted::Identity => one(inst.labels.encode(), SampleValue::Details(details(inst, info))),
        Wanted::Field(key) => match info.num(key) {
            Some(n) => one(inst.labels.encode(), SampleValue::Number(n.to_string())),
            None => none,
        },
        Wanted::Status(key, ok_value) => match info.is(key, ok_value) {
            Some(ok) => one(inst.labels.encode(), flag_value(ok)),
            None => none,
        },
        Wanted::Keys => db_samples(inst, info, false),
        Wanted::Expiring => db_samples(inst, info, true),
        Wanted::MasterOk => master_samples(inst, info, w),
        Wanted::MasterReplicas => master_samples(inst, info, w),
        Wanted::MasterSentinels => master_samples(inst, info, w),
        Wanted::Up => none,
        Wanted::Duration => none,
    }
}

/// The samples of a series of all instances.
fn collect(w: Wanted<'_>, instances: &Vec<Instance>) -> (out: Vec<Sample>)
    ensures
        samples_view(out@) == all_samples(w.series(), instances_view(instances@)),
{
    let ghost all = instances_view(instances@);
    let mut out: Vec<Sample> = Vec::new();
    let mut i: usize = 0;
    assert(samples_view(out@) =~= all_samples(w.series(), all.take(0)));
    while i < instances.len()
        invariant
            i <= instances.len(),
            all == instances_view(instances@),
            samples_view(out@) == all_samples(w.series(), all.take(i as int)),
        decreases instances.len() - i,
    {
        let mut more = instance_samples(w, &instances[i]);
        let ghost before = out@;
        let ghost extra = more@;
        out.append(&mut more);
        proof {
            assert(samples_view(out@) =~= samples_view(before) + samples_view(extra));
            assert(all.take(i + 1).drop_last() =~= all.take(i as int));
            assert(all.take(i + 1).last() == instances[i as int]@);
        }
        i = i + 1;
    }
    assert(all.take(i as int) =~= all);
    out
}

/// The family of a catalogued field, over every instance that reports it.
pub fn encode_field(instances: &Vec<Instance>, metric: &InfoMetric) -> (f: MetricFamily)
    ensures
        f@ == field_family(metric@, instances_view(instances@)),
{
    MetricFamily {
        name: metric.name,
        help: metric.help,
        kind: match metric.kind {
            Kind::Gauge => FamilyKind::Gauge,
            Kind::Counter => FamilyKind::Counter,
        },
        samples: collect(Wanted::Field(metric.key), instances),
    }
}

/// The family of a catalogued word, over every instance that reports it.
pub fn encode_status(instances: &Vec<Instance>, metric: &StatusMetric) -> (f: MetricFamily)
    ensures
        f@ == status_family(metric@, instances_view(instances@)),
{
    MetricFamily {
        name: metric.name,
        help: metric.help,
        kind: FamilyKind::Gauge,
        samples: collect(Wanted::Status(metric.key, metric.ok_value), instances),
    }
}

/// A family of gauges.
fn gauges(
    name: &'static str,
    help: &'static str,
    w: Wanted<'_>,
    instances: &Vec<Instance>,
) -> (f: MetricFamily)
    ensures
        f@ == gauge_family(name@, help@, w.series(), instances_view(instances@)),
{
    MetricFamily { name, help, kind: FamilyKind::Gauge, samples: collect(w, instances) }
}

proof fn lemma_with_samples_push(fs: Seq<FamilyView>, f: FamilyView)
    ensures
        with_samples(fs.push(f)) == kept(with_samples(fs), f),
{
    assert(fs.push(f).drop_last() =~= fs);
}

/// Puts a family behind others, where it has samples.
fn keep(out: &mut Vec<MetricFamily>, f: MetricFamily)
    ensures
        families_view(final(out)@) == kept(families_view(old(out)@), f@),
{
    if f.samples.len() > 0 {
        let ghost before = out@;
        out.push(f);
        assert(families_view(out@) =~= families_view(before).push(f@));
    }
}

/// Puts the families of the databases behind others. An instance may have any
/// number of databases, but no more than a fixed number of them is exported.
pub fn encode_keyspace(out: &mut Vec<MetricFamily>, instances: &Vec<Instance>)
    ensures
        ({
            let t = trailing_families(instances_view(instances@));
            families_view(final(out)@) == kept(kept(families_view(old(out)@), t[0]), t[1])
        }),
{
    keep(out, gauges("redis_db_keys", "Keys held in this database", Wanted::Keys, instances));
    keep(
        out,
        gauges(
            "redis_db_keys_expiring",
            "Keys in this database that carry a TTL",
            Wanted::Expiring,
            instances,
        ),
    );
}

/// Puts the families of the monitored primaries behind others.
pub fn encode_sentinel_masters(out: &mut Vec<MetricFamily>, instances: &Vec<Instance>)
    ensures
        ({
            let t = trailing_families(instances_view(instances@));
            families_view(final(out)@) == kept(
                kept(kept(families_view(old(out)@), t[2]), t[3]),
                t[4],
            )
        }),
{
    keep(
        out,
        gauges(
            "redis_sentinel_master_ok",
            "1 when this sentinel considers the monitored master healthy",
            Wanted::MasterOk,
            instances,
        ),
    );
    keep(
        out,
        gauges(
            "redis_sentinel_master_replicas",
            "Replicas this sentinel sees attached to the monitored master",
            Wanted::MasterReplicas,
            instances,
        ),
    );
    keep(
        out,
        gauges(
            "redis_sentinel_master_sentinels",
            "Other sentinels this sentinel sees monitoring the same master",
            Wanted::MasterSentinels,
            instances,
        ),
    );
}

/// Puts the families of catalogued fields behind others.
fn encode_fields(
    out: &mut Vec<MetricFamily>,
    instances: &Vec<Instance>,
    metrics: &Vec<InfoMetric>,
    Ghost(done): Ghost<Seq<FamilyView>>,
)
    requires
        families_view(old(out)@) == with_samples(done),
    ensures
        families_view(final(out)@) == with_samples(
            done + field_families(
                catalogue::metrics_view(metrics@),
                instances_view(instances@),
            ),
        ),
{
    let ghost all = instances_view(instances@);
    let ghost fs = field_families(catalogue::metrics_view(metrics@), all);
    let mut i: usize = 0;
    assert(done + fs.take(0) =~= done);
    while i < metrics.len()
        invariant
            i <= metrics.len(),
            all == instances_view(instances@),
            fs == field_families(catalogue::metrics_view(metrics@), all),
            families_view(out@) == with_samples(done + fs.take(i as int)),
        decreases metrics.len() - i,
    {
        proof {
            assert(fs[i as int] == field_family(metrics[i as int]@, all));
            assert(done + fs.take(i + 1) =~= (done + fs.take(i as int)).push(fs[i as int]));
            lemma_with_samples_push(done + fs.take(i as int), fs[i as int]);
        }
        let f = encode_field(instances, &metrics[i]);
        keep(out, f);
        i = i + 1;
    }
    assert(fs.take(i as int) =~= fs);
}

/// Puts the families of catalogued words behind others.
fn encode_statuses(
    out: &mut Vec<MetricFamily>,
    instances: &Vec<Instance>,
    metrics: &Vec<StatusMetric>,
    Ghost(done): Ghost<Seq<FamilyView>>,
)
    requires
        families_view(old(out)@) == with_samples(done),
    ensures
        families_view(final(out)@) == with_samples(
            done + status_families(
                catalogue::statuses_view(metrics@),
                instances_view(instances@),
            ),
        ),
{
    let ghost all = instances_view(instances@);
    let ghost fs = status_families(catalogue::statuses_view(metrics@), all);
    let mut i: usize = 0;
    assert(done + fs.take(0) =~= done);
    while i < metrics.len()
        invariant
            i <= metrics.len(),
            all == instances_view(instances@),
            fs == status_families(catalogue::statuses_view(metrics@), all),
            families_view(out@) == with_samples(done + fs.take(i as int)),
        decreases metrics.len() - i,
    {
        proof {
            assert(fs[i as int] == status_family(metrics[i as int]@, all));
            assert(done + fs.take(i + 1) =~= (done + fs.take(i as int)).push(fs[i as int]));
            lemma_with_samples_push(done + fs.take(i as int), fs[i as int]);
        }
        let f = encode_status(instances, &metrics[i]);
        keep(out, f);
        i = i + 1;
    }
    assert(fs.take(i as int) =~= fs);
}

/// The families that say whether, how fast and as what each instance answered.
fn encode_leading(instances: &Vec<Instance>) -> (out: Vec<MetricFamily>)
    ensures
        families_view(out@) == with_samples(leading_families(instances_view(instances@))),
{
    let mut out: Vec<MetricFamily> = Vec::new();
    let ghost lead = leading_families(instances_view(instances@));
    let ghost e = Seq::<FamilyView>::empty();
    assert(families_view(out@) =~= with_samples(e));
    keep(
        &mut out,
        gauges(
            "redis_up",
            "1 when the most recent INFO scrape of this pod succeeded",
            Wanted::Up,
            instances,
        ),
    );
    keep(
        &mut out,
        gauges(
            "redis_scrape_duration_seconds",
            "Seconds the operator spent on the most recent INFO scrape of this pod",
            Wanted::Duration,
            instances,
        ),
    );
    keep(
        &mut out,
        MetricFamily {
            name: "redis_instance",
            help: "Version, mode, and replication role of this instance",
            kind: FamilyKind::Info,
            samples: collect(Wanted::Identity, instances),
        },
    );
    proof {
        lemma_with_samples_push(e, lead[0]);
        lemma_with_samples_push(e.push(lead[0]), lead[1]);
        lemma_with_samples_push(e.push(lead[0]).push(lead[1]), lead[2]);
        assert(e.push(lead[0]).push(lead[1]).push(lead[2]) =~= lead);
    }
    out
}

/// Puts the families of everything that is catalogued behind others.
fn encode_catalogued(
    out: &mut Vec<MetricFamily>,
    instances: &Vec<Instance>,
    Ghost(done): Ghost<Seq<FamilyView>>,
)
    requires
        families_view(old(out)@) == with_samples(done),
    ensures
        families_view(final(out)@) == with_samples(
            done + catalogued_families(instances_view(instances@)),
        ),
{
    let ghost all = instances_view(instances@);
    let redis = catalogue::redis_metrics();
    let sentinel = catalogue::sentinel_metrics();
    let status = catalogue::status_metrics();
    let ghost a = field_families(catalogue::metrics_view(redis@), all);
    let ghost b = field_families(catalogue::metrics_view(sentinel@), all);
    let ghost c = status_families(catalogue::statuses_view(status@), all);
    encode_fields(out, instances, &redis, Ghost(done));
    encode_fields(out, instances, &sentinel, Ghost(done + a));
    encode_statuses(out, instances, &status, Ghost(done + a + b));
    proof {
        reveal(catalogued_families);
        assert(done + a + b + c =~= done + (a + b + c));
    }
}

/// The families of databases and monitored primaries behind `done`, one by one.
proof fn lemma_trailing(done: Seq<FamilyView>, v: Seq<InstanceView>)
    ensures
        ({
            let t = trailing_families(v);
            kept(kept(kept(kept(kept(with_samples(done), t[0]), t[1]), t[2]), t[3]), t[4])
                == with_samples(done + t)
        }),
{
    let t = trailing_families(v);
    lemma_with_samples_push(done, t[0]);
    lemma_with_samples_push(done.push(t[0]), t[1]);
    lemma_with_samples_push(done.push(t[0]).push(t[1]), t[2]);
    lemma_with_samples_push(done.push(t[0]).push(t[1]).push(t[2]), t[3]);
    lemma_with_samples_push(done.push(t[0]).push(t[1]).push(t[2]).push(t[3]), t[4]);
    assert(done.push(t[0]).push(t[1]).push(t[2]).push(t[3]).push(t[4]) =~= done + t);
}

/// What is exported of a snapshot.
pub fn encode(snapshot: &Snapshot) -> (out: Vec<MetricFamily>)
    ensures
        families_view(out@) == exported(instances_view(snapshot.instances@)),
{
    let instances = &snapshot.instances;
    let ghost all = instances_view(instances@);
    let mut out = encode_leading(instances);
    encode_catalogued(&mut out, instances, Ghost(leading_families(all)));
    encode_keyspace(&mut out, instances);
    encode_sentinel_masters(&mut out, instances);
    proof {
        lemma_trailing(leading_families(all) + catalogued_families(all), all);
    }
    out
}

proof fn lemma_one_each(s: Series, v: Seq<InstanceView>)
    requires
        s is Up || s is Duration,
    ensures
        all_samples(s, v).len() == v.len(),
        forall|i: int|
            0 <= i < v.len() ==> samples_of(s, v[i]) == seq![#[trigger] all_samples(s, v)[i]],
    decreases v.len(),
{
    if v.len() > 0 {
        let rest = v.drop_last();
        lemma_one_each(s, rest);
        assert forall|i: int| 0 <= i < v.len() implies samples_of(s, v[i]) == seq![
            #[trigger] all_samples(s, v)[i],
        ] by {
            if i < rest.len() {
                assert(rest[i] == v[i]);
                assert(all_samples(s, v)[i] == all_samples(s, rest)[i]);
            } else {
                assert(all_samples(s, v)[i] == samples_of(s, v.last())[0]);
                assert(samples_of(s, v[i]) =~= seq![samples_of(s, v[i])[0]]);
            }
        }
    }
}

/// Every instance has its `redis_up`, whether it answered or not: 1 where it did
/// and 0 where it did not. An empty snapshot exports nothing.
pub proof fn lemma_up_for_all(v: Seq<InstanceView>, i: int)
    requires
        0 <= i < v.len(),
    ensures
        exported(v).len() > 0,
        ({
            let up = exported(v)[0];
            &&& up.name == "redis_up"@
            &&& up.samples.len() == v.len()
            &&& up.samples[i] == (SampleView { labels: v[i].labels.encoded(), value: flag(v[i].up) })
        }),
{
    lemma_one_each(Series::Up, v);
    let all = possible_families(v);
    assert(all[0] == leading_families(v)[0]);
    assert(all[0].samples.len() > 0);
    lemma_first_kept(all);
    assert(samples_of(Series::Up, v[i])[0] == SampleView {
        labels: v[i].labels.encoded(),
        value: flag(v[i].up),
    });
    assert(samples_of(Series::Up, v[i])[0] == all_samples(Series::Up, v)[i]);
}

proof fn lemma_first_kept(fs: Seq<FamilyView>)
    requires
        fs.len() > 0,
        fs[0].samples.len() > 0,
    ensures
        with_samples(fs).len() > 0,
        with_samples(fs)[0] == fs[0],
    decreases fs.len(),
{
    if fs.len() > 1 {
        assert(fs.drop_last()[0] == fs[0]);
        lemma_first_kept(fs.drop_last());
    } else {
        assert(with_samples(fs.drop_last()) =~= Seq::<FamilyView>::empty());
    }
}

/// An empty snapshot exports nothing.
pub proof fn lemma_nothing_of_nothing()
    ensures
        exported(Seq::<InstanceView>::empty()).len() == 0,
{
    let v = Seq::<InstanceView>::empty();
    let all = possible_families(v);
    assert forall|k: int| 0 <= k < all.len() implies (#[trigger] all[k]).samples.len() == 0 by {
        lemma_samples_are_all(v, k);
    }
    lemma_none_kept(all);
}

/// Whatever the family, its samples are those of some series of all instances.
proof fn lemma_samples_are_all(v: Seq<InstanceView>, k: int)
    requires
        0 <= k < possible_families(v).len(),
    ensures
        exists|s: Series| possible_families(v)[k].samples == #[trigger] all_samples(s, v),
{
    let a = leading_families(v);
    let b = field_families(catalogue::redis_catalogue(), v);
    let c = field_families(catalogue::sentinel_catalogue(), v);
    let d = status_families(catalogue::status_catalogue(), v);
    let e = trailing_families(v);
    let f = possible_families(v)[k];
    reveal(catalogued_families);
    if k < a.len() {
        assert(f == a[k]);
    } else if k < a.len() + b.len() {
        let j = k - a.len();
        assert(f == b[j]);
        let s = Series::Field { key: catalogue::redis_catalogue()[j].key };
        assert(f.samples == all_samples(s, v));
    } else if k < a.len() + b.len() + c.len() {
        let j = k - a.len() - b.len();
        assert(f == c[j]);
        let s = Series::Field { key: catalogue::sentinel_catalogue()[j].key };
        assert(f.samples == all_samples(s, v));
    } else if k < a.len() + b.len() + c.len() + d.len() {
        let j = k - a.len() - b.len() - c.len();
        assert(f == d[j]);
        let m = catalogue::status_catalogue()[j];
        let s = Series::Status { key: m.key, ok_value: m.ok_value };
        assert(f.samples == all_samples(s, v));
    } else {
        let j = k - a.len() - b.len() - c.len() - d.len();
        assert(f == e[j]);
    }
}

proof fn lemma_none_kept(fs: Seq<FamilyView>)
    requires
        forall|k: int| 0 <= k < fs.len() ==> (#[trigger] fs[k]).samples.len() == 0,
    ensures
        with_samples(fs).len() == 0,
    decreases fs.len(),
{
    if fs.len() > 0 {
        let rest = fs.drop_last();
        assert forall|k: int| 0 <= k < rest.len() implies (#[trigger] rest[k]).samples.len()
            == 0 by {
            assert(rest[k] == fs[k]);
        }
        lemma_none_kept(rest);
        assert(fs[fs.len() - 1].samples.len() == 0);
    }
}

/// Of one instance no more than a fixed number of databases is exported, and a
/// field that it does not report as a number is not exported at all.
pub proof fn lemma_bounded_and_honest(i: InstanceView, key: Seq<char>)
    ensures
        samples_of(Series::Keys, i).len() <= MAX_KEYSPACE_DBS,
        samples_of(Series::Expiring, i).len() <= MAX_KEYSPACE_DBS,
        samples_of(Series::Field { key }, i).len() > 0 <==> (i.info is Some && info::number_in(
            i.info->0,
            key,
        ) is Some),
{
}

/// What is exported are the possible families that have samples, in their order.
pub proof fn lemma_exported_have_samples(v: Seq<InstanceView>)
    ensures
        exported(v) == possible_families(v).filter(|f: FamilyView| f.samples.len() > 0),
{
    lemma_kept_by_filter(possible_families(v));
}

proof fn lemma_kept_by_filter(fs: Seq<FamilyView>)
    ensures
        with_samples(fs) == fs.filter(|f: FamilyView| f.samples.len() > 0),
    decreases fs.len(),
{
    reveal(Seq::filter);
    if fs.len() > 0 {
        lemma_kept_by_filter(fs.drop_last());
    } else {
        assert(with_samples(fs) =~= fs);
    }
}

proof fn lemma_samples_concat(s: Series, a: Seq<InstanceView>, b: Seq<InstanceView>)
    ensures
        all_samples(s, a + b) == all_samples(s, a) + all_samples(s, b),
    decreases b.len(),
{
    if b.len() == 0 {
        assert(a + b =~= a);
        assert(all_samples(s, a) + all_samples(s, b) =~= all_samples(s, a));
    } else {
        lemma_samples_concat(s, a, b.drop_last());
        assert((a + b).drop_last() =~= a + b.drop_last());
        assert((a + b).last() == b.last());
        assert(all_samples(s, a + b) =~= all_samples(s, a) + all_samples(s, b));
    }
}

/// The families are the same whatever the instances are, and hold the samples of
/// one instance behind those of another.
pub proof fn lemma_families_add_up(a: Seq<InstanceView>, b: Seq<InstanceView>, k: int)
    requires
        0 <= k < possible_families(a).len(),
    ensures
        ({
            let p = possible_families(a + b);
            let x = possible_families(a);
            let y = possible_families(b);
            &&& p.len() == x.len() == y.len()
            &&& p[k].name == x[k].name && x[k].name == y[k].name
            &&& p[k].help == x[k].help && x[k].help == y[k].help
            &&& p[k].kind == x[k].kind
            &&& x[k].kind == y[k].kind
            &&& p[k].samples == x[k].samples + y[k].samples
        }),
{
    reveal(catalogued_families);
    let l = leading_families(a).len() as int;
    let r = catalogue::redis_catalogue().len() as int;
    let s = catalogue::sentinel_catalogue().len() as int;
    let t = catalogue::status_catalogue().len() as int;
    if k < l {
        lemma_samples_concat(Series::Up, a, b);
        lemma_samples_concat(Series::Duration, a, b);
        lemma_samples_concat(Series::Identity, a, b);
        assert(possible_families(a + b)[k] == leading_families(a + b)[k]);
        assert(possible_families(a)[k] == leading_families(a)[k]);
        assert(possible_families(b)[k] == leading_families(b)[k]);
    } else if k < l + r {
        let m = catalogue::redis_catalogue()[k - l];
        lemma_samples_concat(Series::Field { key: m.key }, a, b);
        assert(possible_families(a + b)[k] == field_family(m, a + b));
        assert(possible_families(a)[k] == field_family(m, a));
        assert(possible_families(b)[k] == field_family(m, b));
    } else if k < l + r + s {
        let m = catalogue::sentinel_catalogue()[k - l - r];
        lemma_samples_concat(Series::Field { key: m.key }, a, b);
        assert(possible_families(a + b)[k] == field_family(m, a + b));
        assert(possible_families(a)[k] == field_family(m, a));
        assert(possible_families(b)[k] == field_family(m, b));
    } else if k < l + r + s + t {
        let m = catalogue::status_catalogue()[k - l - r - s];
        lemma_samples_concat(Series::Status { key: m.key, ok_value: m.ok_value }, a, b);
        assert(possible_families(a + b)[k] == status_family(m, a + b));
        assert(possible_families(a)[k] == status_family(m, a));
        assert(possible_families(b)[k] == status_family(m, b));
    } else {
        let j = k - l - r - s - t;
        lemma_samples_concat(Series::Keys, a, b);
        lemma_samples_concat(Series::Expiring, a, b);
        lemma_samples_concat(Series::MasterOk, a, b);
        lemma_samples_concat(Series::MasterReplicas, a, b);
        lemma_samples_concat(Series::MasterSentinels, a, b);
        assert(possible_families(a + b)[k] == trailing_families(a + b)[j]);
        assert(possible_families(a)[k] == trailing_families(a)[j]);
        assert(possible_families(b)[k] == trailing_families(b)[j]);
    }
}

proof fn lemma_single(s: Series, i: InstanceView)
    ensures
        all_samples(s, seq![i]) == samples_of(s, i),
{
    let v = seq![i];
    assert(v.drop_last() =~= Seq::<InstanceView>::empty());
    assert(all_samples(s, v.drop_last()) =~= Seq::<SampleView>::empty());
    assert(all_samples(s, v) =~= samples_of(s, i));
}

/// Of one instance: whether it answered, how long that took, and, where it
/// answered, what it says of itself.
pub proof fn lemma_leading_samples(i: InstanceView)
    ensures
        ({
            let p = possible_families(seq![i]);
            let labels = seq![
                ("namespace"@, i.labels.namespace),
                ("pod"@, i.labels.pod),
                ("instance_name"@, i.labels.instance_name),
                ("kind"@, i.labels.kind),
            ];
            &&& p.len() > 3
            &&& p[0].name == "redis_up"@ && p[0].kind is Gauge
            &&& p[0].samples.len() == 1
            &&& p[0].samples[0].labels == labels
            &&& p[0].samples[0].value == (if i.up {
                ValueView::Integer(1)
            } else {
                ValueView::Integer(0)
            })
            &&& p[1].name == "redis_scrape_duration_seconds"@ && p[1].kind is Gauge
            &&& p[1].samples.len() == 1
            &&& p[1].samples[0].labels == labels
            &&& p[1].samples[0].value == ValueView::Nanoseconds(i.scrape_nanos)
            &&& p[2].name == "redis_instance"@ && p[2].kind is Info
            &&& i.info is None ==> p[2].samples.len() == 0
            &&& i.info matches Some(m) ==> {
                let role = if !m.contains_key("role"@) {
                    Seq::empty()
                } else if m["role"@] == "slave"@ {
                    "replica"@
                } else {
                    m["role"@]
                };
                let version = if m.contains_key("redis_version"@) {
                    m["redis_version"@]
                } else {
                    Seq::empty()
                };
                let mode = if m.contains_key("redis_mode"@) {
                    m["redis_mode"@]
                } else {
                    Seq::empty()
                };
                &&& p[2].samples.len() == 1
                &&& p[2].samples[0].labels == labels
                &&& p[2].samples[0].value == ValueView::Details(
                    seq![("role"@, role), ("redis_version"@, version), ("redis_mode"@, mode)],
                )
            }
        }),
{
    lemma_single(Series::Up, i);
    lemma_single(Series::Duration, i);
    lemma_single(Series::Identity, i);
    let p = possible_families(seq![i]);
    assert(p[0] == leading_families(seq![i])[0]);
    assert(p[1] == leading_families(seq![i])[1]);
    assert(p[2] == leading_families(seq![i])[2]);
}

/// Behind these come the catalogued fields and words. Of one instance a field is
/// exported exactly where its reply has it as a number, and that number; a word as
/// 1 where it is the one that is hoped for, and as 0 where it is another.
pub proof fn lemma_catalogued_samples(i: InstanceView, j: int)
    requires
        0 <= j < catalogue::redis_catalogue().len() + catalogue::sentinel_catalogue().len()
            + catalogue::status_catalogue().len(),
    ensures
        ({
            let f = possible_families(seq![i])[3 + j];
            let labels = seq![
                ("namespace"@, i.labels.namespace),
                ("pod"@, i.labels.pod),
                ("instance_name"@, i.labels.instance_name),
                ("kind"@, i.labels.kind),
            ];
            let r = catalogue::redis_catalogue().len() as int;
            let s = catalogue::sentinel_catalogue().len() as int;
            if j < r + s {
                let m = if j < r {
                    catalogue::redis_catalogue()[j]
                } else {
                    catalogue::sentinel_catalogue()[j - r]
                };
                let reported = i.info is Some && i.info->0.contains_key(m.key)
                    && crate::float_text::literal(text::trimmed(i.info->0[m.key])) is Some;
                &&& f.name == m.name && f.help == m.help
                &&& f.kind is Counter <==> m.kind is Counter
                &&& f.kind is Gauge <==> m.kind is Gauge
                &&& f.samples.len() == (if reported {
                    1int
                } else {
                    0
                })
                &&& reported ==> f.samples[0].labels == labels && f.samples[0].value
                    == ValueView::Number(text::trimmed(i.info->0[m.key]))
            } else {
                let m = catalogue::status_catalogue()[j - r - s];
                let reported = i.info is Some && i.info->0.contains_key(m.key);
                &&& f.name == m.name && f.help == m.help && f.kind is Gauge
                &&& f.samples.len() == (if reported {
                    1int
                } else {
                    0
                })
                &&& reported ==> f.samples[0].labels == labels && f.samples[0].value == (
                if text::trimmed(i.info->0[m.key]) == m.ok_value {
                    ValueView::Integer(1)
                } else {
                    ValueView::Integer(0)
                })
            }
        }),
{
    reveal(catalogued_families);
    let r = catalogue::redis_catalogue().len() as int;
    let s = catalogue::sentinel_catalogue().len() as int;
    let f = possible_families(seq![i])[3 + j];
    if j < r {
        let m = catalogue::redis_catalogue()[j];
        lemma_single(Series::Field { key: m.key }, i);
        assert(f == field_family(m, seq![i]));
    } else if j < r + s {
        let m = catalogue::sentinel_catalogue()[j - r];
        lemma_single(Series::Field { key: m.key }, i);
        assert(f == field_family(m, seq![i]));
    } else {
        let m = catalogue::status_catalogue()[j - r - s];
        lemma_single(Series::Status { key: m.key, ok_value: m.ok_value }, i);
        assert(f == status_family(m, seq![i]));
    }
}

proof fn lemma_trailing_place(v: Seq<InstanceView>, j: int)
    requires
        0 <= j < 5,
    ensures
        possible_families(v).len() >= 5,
        possible_families(v)[possible_families(v).len() - 5 + j] == trailing_families(v)[j],
{
}

/// The databases of one instance: one sample each, up to a fixed number of them, in
/// the order in which the reply has them; their keys in one family, those that
/// expire in the next.
pub proof fn lemma_db_samples(i: InstanceView, m: Map<Seq<char>, Seq<char>>, c: int)
    requires
        i.info == Some(m),
        m.dom().finite(),
        0 <= c < info::dbs_of(info::sorted_entries(m)).len(),
    ensures
        ({
            let p = possible_families(seq![i]);
            let keys = p[p.len() - 5];
            let expiring = p[p.len() - 4];
            let d = info::dbs_of(info::sorted_entries(m))[c];
            let value = m["db"@ + d.db];
            let labels = seq![
                ("namespace"@, i.labels.namespace),
                ("pod"@, i.labels.pod),
                ("instance_name"@, i.labels.instance_name),
                ("kind"@, i.labels.kind),
                ("db"@, d.db),
            ];
            &&& keys.name == "redis_db_keys"@ && keys.kind is Gauge
            &&& expiring.name == "redis_db_keys_expiring"@ && expiring.kind is Gauge
            &&& keys.samples.len() == expiring.samples.len() <= 16
            &&& c < keys.samples.len() <==> c < 16
            &&& m.contains_key("db"@ + d.db)
            &&& c < 16 ==> {
                &&& keys.samples[c].labels == labels
                &&& keys.samples[c].value == ValueView::Integer(
                    info::kv_count(info::list_of(value), "keys"@) as i64,
                )
                &&& expiring.samples[c].labels == labels
                &&& expiring.samples[c].value == ValueView::Integer(
                    info::kv_count(info::list_of(value), "expires"@) as i64,
                )
            }
        }),
{
    lemma_single(Series::Keys, i);
    lemma_single(Series::Expiring, i);
    lemma_trailing_place(seq![i], 0);
    lemma_trailing_place(seq![i], 1);
    info::lemma_keyspace(m);
    let d = info::dbs_of(info::sorted_entries(m))[c];
    let labels = seq![
        ("namespace"@, i.labels.namespace),
        ("pod"@, i.labels.pod),
        ("instance_name"@, i.labels.instance_name),
        ("kind"@, i.labels.kind),
        ("db"@, d.db),
    ];
    assert(i.labels.encoded().push(("db"@, d.db)) =~= labels);
}

/// The monitored primaries of one instance: three families with one sample each for
/// every field that is named `master` and an index and gives a name. The first says
/// whether its status is `ok`, the second how many replicas it has, the third how
/// many sentinels watch it.
pub proof fn lemma_master_samples(i: InstanceView, m: Map<Seq<char>, Seq<char>>, c: int) -> (key:
    Seq<char>)
    requires
        i.info == Some(m),
        m.dom().finite(),
        ({
            let p = possible_families(seq![i]);
            0 <= c < p[p.len() - 2].samples.len()
        }),
    ensures
        ({
            let p = possible_families(seq![i]);
            let ok = p[p.len() - 3];
            let replicas = p[p.len() - 2];
            let sentinels = p[p.len() - 1];
            let list = info::list_of(m[key]);
            let labels = seq![
                ("namespace"@, i.labels.namespace),
                ("pod"@, i.labels.pod),
                ("instance_name"@, i.labels.instance_name),
                ("kind"@, i.labels.kind),
                ("master"@, info::kv_value(list, "name"@)->0),
            ];
            &&& ok.name == "redis_sentinel_master_ok"@ && ok.kind is Gauge
            &&& replicas.name == "redis_sentinel_master_replicas"@ && replicas.kind is Gauge
            &&& sentinels.name == "redis_sentinel_master_sentinels"@ && sentinels.kind is Gauge
            &&& m.contains_key(key)
            &&& exists|index: Seq<char>|
                index.len() > 0 && number::all_digits(index) && key == #[trigger] ("master"@
                    + index)
            &&& info::kv_value(list, "name"@) is Some
            &&& ok.samples.len() == replicas.samples.len() == sentinels.samples.len()
            &&& ok.samples[c].labels == labels
            &&& ok.samples[c].value == (if info::kv_value(list, "status"@) == Some("ok"@) {
                ValueView::Integer(1)
            } else {
                ValueView::Integer(0)
            })
            &&& replicas.samples[c].labels == labels
            &&& replicas.samples[c].value == ValueView::Integer(
                info::kv_count(list, "slaves"@) as i64,
            )
            &&& sentinels.samples[c].labels == labels
            &&& sentinels.samples[c].value == ValueView::Integer(
                info::kv_count(list, "sentinels"@) as i64,
            )
        }),
{
    lemma_single(Series::MasterOk, i);
    lemma_single(Series::MasterReplicas, i);
    lemma_single(Series::MasterSentinels, i);
    lemma_trailing_place(seq![i], 2);
    lemma_trailing_place(seq![i], 3);
    lemma_trailing_place(seq![i], 4);
    let masters = info::masters_of(info::sorted_entries(m));
    let key = info::lemma_master_field(m, c);
    let labels = seq![
        ("namespace"@, i.labels.namespace),
        ("pod"@, i.labels.pod),
        ("instance_name"@, i.labels.instance_name),
        ("kind"@, i.labels.kind),
        ("master"@, masters[c].name),
    ];
    assert(i.labels.encoded().push(("master"@, masters[c].name)) =~= labels);
    key
}

/// Every such field of a reply is exported.
pub proof fn lemma_master_exported(i: InstanceView, m: Map<Seq<char>, Seq<char>>, index: Seq<char>)
    -> (c: int)
    requires
        i.info == Some(m),
        m.dom().finite(),
        index.len() > 0,
        number::all_digits(index),
        m.contains_key("master"@ + index),
        info::kv_value(info::list_of(m["master"@ + index]), "name"@) is Some,
    ensures
        ({
            let p = possible_families(seq![i]);
            let list = info::list_of(m["master"@ + index]);
            &&& 0 <= c < p[p.len() - 2].samples.len()
            &&& p[p.len() - 2].samples[c].labels.last() == (
                "master"@,
                info::kv_value(list, "name"@)->0,
            )
            &&& p[p.len() - 2].samples[c].value == ValueView::Integer(
                info::kv_count(list, "slaves"@) as i64,
            )
            &&& p[p.len() - 1].samples[c].value == ValueView::Integer(
                info::kv_count(list, "sentinels"@) as i64,
            )
        }),
{
    lemma_single(Series::MasterReplicas, i);
    lemma_single(Series::MasterSentinels, i);
    lemma_trailing_place(seq![i], 3);
    lemma_trailing_place(seq![i], 4);
    info::lemma_master_listed(m, index)
}

/// Without a reply nothing is exported of an instance but whether it answered and
/// how long that took.
pub proof fn lemma_no_reply_no_samples(i: InstanceView, k: int)
    requires
        i.info is None,
        2 <= k < possible_families(seq![i]).len(),
    ensures
        possible_families(seq![i])[k].samples.len() == 0,
{
    reveal(catalogued_families);
    let v = seq![i];
    let r = catalogue::redis_catalogue().len() as int;
    let s = catalogue::sentinel_catalogue().len() as int;
    let t = catalogue::status_catalogue().len() as int;
    if k == 2 {
        lemma_leading_samples(i);
    } else if k < 3 + r + s + t {
        lemma_catalogued_samples(i, k - 3);
    } else {
        lemma_trailing_place(v, k - 3 - r - s - t);
        lemma_single(Series::Keys, i);
        lemma_single(Series::Expiring, i);
        lemma_single(Series::MasterOk, i);
        lemma_single(Series::MasterReplicas, i);
        lemma_single(Series::MasterSentinels, i);
    }
}

/// A pod is scraped exactly where it runs, is not going away, has an address and a
/// namespace, and its labels say that the operator manages it, whose it is, and that
/// it is one of the three kinds. Sentinels listen elsewhere than servers.
pub proof fn lemma_scraped_pods(pod: PodFacts)
    ensures
        is_target(pod) <==> {
            &&& !pod.terminating
            &&& pod.phase is Some && pod.phase->0@ == "Running"@
            &&& pod.ip is Some
            &&& pod.namespace is Some
            &&& pod.labels@.contains_key("app.kubernetes.io/managed-by"@)
            &&& pod.labels@["app.kubernetes.io/managed-by"@]@ == "redis-operator"@
            &&& pod.labels@.contains_key("app.kubernetes.io/instance"@)
            &&& pod.labels@.contains_key("app.kubernetes.io/name"@)
            &&& {
                let app = pod.labels@["app.kubernetes.io/name"@]@;
                app == "redis"@ || app == "redis-cluster"@ || app == "redis-sentinel"@
            }
        },
        kind_and_port(Some("redis"@)) == Some(("redis"@, 6379u16)),
        kind_and_port(Some("redis-cluster"@)) == Some(("rediscluster"@, 6379u16)),
        kind_and_port(Some("redis-sentinel"@)) == Some(("sentinel"@, 26379u16)),
{
    reveal_strlit("redis");
    reveal_strlit("redis-cluster");
    reveal_strlit("redis-sentinel");
    assert("redis"@.len() == 5 && "redis-cluster"@.len() == 13 && "redis-sentinel"@.len() == 14);
}

/// The failures of a round are the instances that are not up. Its snapshot holds
/// each instance once, by namespace, then by pod, then in the order in which they
/// came.
pub proof fn lemma_round_settled(v: Seq<InstanceView>, perm: Seq<usize>, a: int, b: int)
    requires
        order::is_stable_order(pod_keys(v), perm),
        0 <= a < b < perm.len(),
    ensures
        down_count(v) == v.filter(|i: InstanceView| !i.up).len(),
        arranged(v, perm).len() == v.len(),
        arranged(v, perm)[a] == v[perm[a] as int],
        perm.no_duplicates(),
        ({
            let x = arranged(v, perm)[a].labels;
            let y = arranged(v, perm)[b].labels;
            ||| order::less(x.namespace, y.namespace)
            ||| x.namespace == y.namespace && order::less(x.pod, y.pod)
            ||| x.namespace == y.namespace && x.pod == y.pod && perm[a] < perm[b]
        }),
{
    lemma_down_filtered(v);
    order::lemma_stable_order_of_pairs(pod_keys(v), perm, a, b);
}

proof fn lemma_down_filtered(v: Seq<InstanceView>)
    ensures
        down_count(v) == v.filter(|i: InstanceView| !i.up).len(),
    decreases v.len(),
{
    reveal(Seq::filter);
    if v.len() > 0 {
        lemma_down_filtered(v.drop_last());
    }
}

/// The pods of every workload that the operator makes are scraped by the labels that
/// it gives them, each kind under its own name and where it listens.
pub proof fn lemma_own_pods_scraped(name: Seq<char>)
    ensures
        ({
            let k = "app.kubernetes.io/name"@;
            let own = "app.kubernetes.io/managed-by"@;
            let a = crate::controller::redis::builders::data_labels(name);
            let b = crate::controller::redis_cluster::builders::cluster_labels(name);
            let c = crate::controller::redis::builders::sentinel_labels_of(name);
            &&& a.contains_key(k) && kind_and_port(Some(a[k])) == Some(("redis"@, 6379u16))
            &&& b.contains_key(k) && kind_and_port(Some(b[k])) == Some(("rediscluster"@, 6379u16))
            &&& c.contains_key(k) && kind_and_port(Some(c[k])) == Some(("sentinel"@, 26379u16))
            &&& a.contains_key(own) && a[own] == "redis-operator"@
            &&& b.contains_key(own) && b[own] == "redis-operator"@
            &&& c.contains_key(own) && c[own] == "redis-operator"@
            &&& a.contains_key("app.kubernetes.io/instance"@) && a["app.kubernetes.io/instance"@]
                == name
            &&& b.contains_key("app.kubernetes.io/instance"@) && b["app.kubernetes.io/instance"@]
                == name
            &&& c.contains_key("app.kubernetes.io/instance"@) && c["app.kubernetes.io/instance"@]
                == name
        }),
{
    reveal_strlit("redis");
    reveal_strlit("redis-cluster");
    reveal_strlit("redis-sentinel");
    reveal_strlit("app.kubernetes.io/name");
    reveal_strlit("app.kubernetes.io/instance");
    reveal_strlit("app.kubernetes.io/component");
    reveal_strlit("app.kubernetes.io/managed-by");
    assert("redis"@.len() == 5 && "redis-cluster"@.len() == 13 && "redis-sentinel"@.len() == 14);
    assert("app.kubernetes.io/name"@.len() == 22);
    assert("app.kubernetes.io/instance"@.len() == 26);
    assert("app.kubernetes.io/component"@.len() == 27);
    assert("app.kubernetes.io/managed-by"@.len() == 28);
}

} // verus!
