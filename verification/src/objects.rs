//! The Kubernetes objects that the operator writes, as plain data: of each kind
//! the fields that it sets, in the shape that the API gives them.

use vstd::prelude::*;

use crate::str_map;
use crate::str_map::StrMap;
use crate::text;

verus! {

/// A resource quantity in its textual form, such as `1Gi` or `500m`.
#[derive(Debug, PartialEq, Eq)]
pub struct Quantity(pub String);

impl Clone for Quantity {
    fn clone(&self) -> (r: Self)
        ensures
            r == *self,
    {
        Quantity(self.0.clone())
    }
}

/// An integer, or a text such as a percentage.
#[derive(Debug, PartialEq, Eq)]
pub enum IntOrString {
    Int(i32),
    String(String),
}

impl Clone for IntOrString {
    fn clone(&self) -> (r: Self)
        ensures
            r == *self,
    {
        match self {
            IntOrString::Int(n) => IntOrString::Int(*n),
            IntOrString::String(s) => IntOrString::String(s.clone()),
        }
    }
}

/// The object that owns another one, which is deleted along with it.
#[derive(Debug, PartialEq, Eq)]
pub struct OwnerReference {
    pub api_version: String,
    pub block_owner_deletion: Option<bool>,
    pub controller: Option<bool>,
    pub kind: String,
    pub name: String,
    pub uid: String,
}

impl Clone for OwnerReference {
    fn clone(&self) -> (r: Self)
        ensures
            r == *self,
    {
        OwnerReference {
            api_version: self.api_version.clone(),
            block_owner_deletion: self.block_owner_deletion,
            controller: self.controller,
            kind: self.kind.clone(),
            name: self.name.clone(),
            uid: self.uid.clone(),
        }
    }
}

impl Default for OwnerReference {
    fn default() -> (r: Self)
        ensures
            r.api_version@.len() == 0,
            r.block_owner_deletion is None,
            r.controller is None,
            r.kind@.len() == 0,
            r.name@.len() == 0,
            r.uid@.len() == 0,
    {
        OwnerReference {
            api_version: String::new(),
            block_owner_deletion: None,
            controller: None,
            kind: String::new(),
            name: String::new(),
            uid: String::new(),
        }
    }
}

#[derive(Debug, PartialEq, Eq)]
pub struct ObjectMeta {
    pub name: Option<String>,
    pub namespace: Option<String>,
    pub labels: Option<StrMap<String>>,
    pub owner_references: Option<Vec<OwnerReference>>,
}

#[derive(Debug, PartialEq, Eq)]
pub struct LabelSelectorRequirement {
    pub key: String,
    pub operator: String,
    pub values: Option<Vec<String>>,
}

#[derive(Debug, PartialEq, Eq)]
pub struct LabelSelector {
    pub match_expressions: Option<Vec<LabelSelectorRequirement>>,
    pub match_labels: Option<StrMap<String>>,
}

#[derive(Debug, PartialEq, Eq)]
pub struct TopologySpreadConstraint {
    pub label_selector: Option<LabelSelector>,
    pub match_label_keys: Option<Vec<String>>,
    pub max_skew: i32,
    pub min_domains: Option<i32>,
    pub node_affinity_policy: Option<String>,
    pub node_taints_policy: Option<String>,
    pub topology_key: String,
    pub when_unsatisfiable: String,
}

#[derive(Debug, PartialEq, Eq)]
pub struct ServicePort {
    pub name: Option<String>,
    pub port: i32,
    pub target_port: Option<IntOrString>,
    pub protocol: Option<String>,
}

#[derive(Debug, PartialEq, Eq)]
pub struct ServiceSpec {
    pub cluster_ip: Option<String>,
    pub selector: Option<StrMap<String>>,
    pub ports: Option<Vec<ServicePort>>,
    pub publish_not_ready_addresses: Option<bool>,
}

#[derive(Debug, PartialEq, Eq)]
pub struct Service {
    pub metadata: ObjectMeta,
    pub spec: Option<ServiceSpec>,
}

#[derive(Debug, PartialEq, Eq)]
pub struct ResourceRequirements {
    pub limits: Option<StrMap<Quantity>>,
    pub requests: Option<StrMap<Quantity>>,
}

#[derive(Debug, PartialEq, Eq)]
pub struct EnvVar {
    pub name: String,
    pub value: Option<String>,
}

#[derive(Debug, PartialEq, Eq)]
pub struct ContainerPort {
    pub name: Option<String>,
    pub container_port: i32,
    pub protocol: Option<String>,
}

#[derive(Debug, PartialEq, Eq)]
pub struct ExecAction {
    pub command: Option<Vec<String>>,
}

#[derive(Debug, PartialEq, Eq)]
pub struct Probe {
    pub exec_action: Option<ExecAction>,
    pub failure_threshold: Option<i32>,
    pub initial_delay_seconds: Option<i32>,
    pub period_seconds: Option<i32>,
    pub timeout_seconds: Option<i32>,
}

#[derive(Debug, PartialEq, Eq)]
pub struct VolumeMount {
    pub name: String,
    pub mount_path: String,
}

#[derive(Debug, PartialEq, Eq)]
pub struct Container {
    pub name: String,
    pub image: Option<String>,
    pub command: Option<Vec<String>>,
    pub args: Option<Vec<String>>,
    pub env: Option<Vec<EnvVar>>,
    pub ports: Option<Vec<ContainerPort>>,
    pub liveness_probe: Option<Probe>,
    pub readiness_probe: Option<Probe>,
    pub resources: Option<ResourceRequirements>,
    pub volume_mounts: Option<Vec<VolumeMount>>,
}

/// A volume of a pod: an empty directory, where `empty_dir` is set.
#[derive(Debug, PartialEq, Eq)]
pub struct Volume {
    pub name: String,
    pub empty_dir: bool,
}

#[derive(Debug, PartialEq, Eq)]
pub struct PodSpec {
    pub containers: Vec<Container>,
    pub topology_spread_constraints: Option<Vec<TopologySpreadConstraint>>,
    pub volumes: Option<Vec<Volume>>,
}

#[derive(Debug, PartialEq, Eq)]
pub struct PodTemplateSpec {
    pub metadata: Option<ObjectMeta>,
    pub spec: Option<PodSpec>,
}

#[derive(Debug, PartialEq, Eq)]
pub struct PersistentVolumeClaimSpec {
    pub access_modes: Option<Vec<String>>,
    /// What the claim requests; it sets no limits.
    pub requests: Option<StrMap<Quantity>>,
    pub storage_class_name: Option<String>,
}

#[derive(Debug, PartialEq, Eq)]
pub struct PersistentVolumeClaim {
    pub metadata: ObjectMeta,
    pub spec: Option<PersistentVolumeClaimSpec>,
}

#[derive(Debug, PartialEq, Eq)]
pub struct StatefulSetPersistentVolumeClaimRetentionPolicy {
    pub when_deleted: Option<String>,
    pub when_scaled: Option<String>,
}

#[derive(Debug, PartialEq, Eq)]
pub struct StatefulSetSpec {
    pub replicas: Option<i32>,
    pub service_name: Option<String>,
    pub selector: LabelSelector,
    pub template: PodTemplateSpec,
    pub min_ready_seconds: Option<i32>,
    pub volume_claim_templates: Option<Vec<PersistentVolumeClaim>>,
    pub persistent_volume_claim_retention_policy: Option<
        StatefulSetPersistentVolumeClaimRetentionPolicy,
    >,
}

#[derive(Debug, PartialEq, Eq)]
pub struct StatefulSet {
    pub metadata: ObjectMeta,
    pub spec: Option<StatefulSetSpec>,
}

#[derive(Debug, PartialEq, Eq)]
pub struct PodDisruptionBudgetObjectSpec {
    pub min_available: Option<IntOrString>,
    pub max_unavailable: Option<IntOrString>,
    pub unhealthy_pod_eviction_policy: Option<String>,
    pub selector: Option<LabelSelector>,
}

#[derive(Debug, PartialEq, Eq)]
pub struct PodDisruptionBudget {
    pub metadata: ObjectMeta,
    pub spec: Option<PodDisruptionBudgetObjectSpec>,
}

/// What an optional list of texts holds.
pub open spec fn opt_list(o: Option<Vec<String>>) -> Option<Seq<Seq<char>>> {
    match o {
        Some(v) => Some(text::owned_views(v@)),
        None => None,
    }
}

/// What an optional map of texts holds.
pub open spec fn opt_texts(o: Option<StrMap<String>>) -> Option<Map<Seq<char>, Seq<char>>> {
    match o {
        Some(m) => Some(str_map::texts(m)),
        None => None,
    }
}

/// What a map of quantities holds, each as its text.
pub open spec fn quantities(m: StrMap<Quantity>) -> Map<Seq<char>, Seq<char>> {
    m@.map_values(|q: Quantity| q.0@)
}

/// What an optional map of quantities holds.
pub open spec fn opt_quantities(o: Option<StrMap<Quantity>>) -> Option<Map<Seq<char>, Seq<char>>> {
    match o {
        Some(m) => Some(quantities(m)),
        None => None,
    }
}

#[verifier::ext_equal]
pub ghost struct RequirementView {
    pub key: Seq<char>,
    pub operator: Seq<char>,
    pub values: Option<Seq<Seq<char>>>,
}

#[verifier::ext_equal]
pub ghost struct SelectorView {
    pub match_expressions: Option<Seq<RequirementView>>,
    pub match_labels: Option<Map<Seq<char>, Seq<char>>>,
}

#[verifier::ext_equal]
pub ghost struct SpreadView {
    pub label_selector: Option<SelectorView>,
    pub match_label_keys: Option<Seq<Seq<char>>>,
    pub max_skew: i32,
    pub min_domains: Option<i32>,
    pub node_affinity_policy: Option<Seq<char>>,
    pub node_taints_policy: Option<Seq<char>>,
    pub topology_key: Seq<char>,
    pub when_unsatisfiable: Seq<char>,
}

impl View for LabelSelectorRequirement {
    type V = RequirementView;

    open spec fn view(&self) -> RequirementView {
        RequirementView {
            key: self.key@,
            operator: self.operator@,
            values: opt_list(self.values),
        }
    }
}

/// What a list of requirements holds.
pub open spec fn requirements(v: Seq<LabelSelectorRequirement>) -> Seq<RequirementView> {
    v.map_values(|r: LabelSelectorRequirement| r@)
}

impl View for LabelSelector {
    type V = SelectorView;

    open spec fn view(&self) -> SelectorView {
        SelectorView {
            match_expressions: match self.match_expressions {
                Some(v) => Some(requirements(v@)),
                None => None,
            },
            match_labels: opt_texts(self.match_labels),
        }
    }
}

impl View for TopologySpreadConstraint {
    type V = SpreadView;

    open spec fn view(&self) -> SpreadView {
        SpreadView {
            label_selector: match self.label_selector {
                Some(s) => Some(s@),
                None => None,
            },
            match_label_keys: opt_list(self.match_label_keys),
            max_skew: self.max_skew,
            min_domains: self.min_domains,
            node_affinity_policy: text::opt_view(self.node_affinity_policy),
            node_taints_policy: text::opt_view(self.node_taints_policy),
            topology_key: self.topology_key@,
            when_unsatisfiable: self.when_unsatisfiable@,
        }
    }
}

/// What a list of constraints holds.
pub open spec fn spreads(v: Seq<TopologySpreadConstraint>) -> Seq<SpreadView> {
    v.map_values(|c: TopologySpreadConstraint| c@)
}

/// What an optional list of constraints holds.
pub open spec fn opt_spreads(o: Option<Vec<TopologySpreadConstraint>>) -> Option<Seq<SpreadView>> {
    match o {
        Some(v) => Some(spreads(v@)),
        None => None,
    }
}

/// The selector that asks for the labels `labels` and for nothing else.
pub open spec fn selects(labels: Map<Seq<char>, Seq<char>>) -> SelectorView {
    SelectorView { match_expressions: None, match_labels: Some(labels) }
}

/// A copy of a list of texts.
pub fn clone_list(v: &Vec<String>) -> (r: Vec<String>)
    ensures
        r@ == v@,
{
    let mut r: Vec<String> = Vec::new();
    let mut i: usize = 0;
    while i < v.len()
        invariant
            i <= v.len(),
            r@ == v@.take(i as int),
        decreases v.len() - i,
    {
        r.push(v[i].clone());
        assert(r@ =~= v@.take(i + 1));
        i = i + 1;
    }
    assert(v@.take(v.len() as int) =~= v@);
    r
}

/// A copy of an optional list of texts.
pub fn clone_opt_list(o: &Option<Vec<String>>) -> (r: Option<Vec<String>>)
    ensures
        opt_list(r) == opt_list(*o),
{
    match o {
        Some(v) => Some(clone_list(v)),
        None => None,
    }
}

/// A copy of an optional text.
pub fn clone_opt(o: &Option<String>) -> (r: Option<String>)
    ensures
        r == *o,
{
    match o {
        Some(s) => Some(s.clone()),
        None => None,
    }
}

impl Clone for LabelSelectorRequirement {
    fn clone(&self) -> (r: Self)
        ensures
            r@ == self@,
    {
        LabelSelectorRequirement {
            key: self.key.clone(),
            operator: self.operator.clone(),
            values: clone_opt_list(&self.values),
        }
    }
}

impl Clone for LabelSelector {
    fn clone(&self) -> (r: Self)
        ensures
            r@ == self@,
    {
        let match_expressions = match &self.match_expressions {
            Some(v) => {
                let mut out: Vec<LabelSelectorRequirement> = Vec::new();
                let mut i: usize = 0;
                while i < v.len()
                    invariant
                        i <= v.len(),
                        requirements(out@) == requirements(v@).take(i as int),
                    decreases v.len() - i,
                {
                    let ghost before = out@;
                    let c = v[i].clone();
                    out.push(c);
                    assert(requirements(out@) =~= requirements(before).push(c@));
                    assert(requirements(out@) =~= requirements(v@).take(i + 1));
                    i = i + 1;
                }
                assert(requirements(out@) =~= requirements(v@));
                Some(out)
            },
            None => None,
        };
        let match_labels = match &self.match_labels {
            Some(m) => Some(m.clone()),
            None => None,
        };
        LabelSelector { match_expressions, match_labels }
    }
}

impl Clone for TopologySpreadConstraint {
    fn clone(&self) -> (r: Self)
        ensures
            r@ == self@,
    {
        let label_selector = match &self.label_selector {
            Some(s) => Some(s.clone()),
            None => None,
        };
        TopologySpreadConstraint {
            label_selector,
            match_label_keys: clone_opt_list(&self.match_label_keys),
            max_skew: self.max_skew,
            min_domains: self.min_domains,
            node_affinity_policy: clone_opt(&self.node_affinity_policy),
            node_taints_policy: clone_opt(&self.node_taints_policy),
            topology_key: self.topology_key.clone(),
            when_unsatisfiable: self.when_unsatisfiable.clone(),
        }
    }
}

impl Default for TopologySpreadConstraint {
    fn default() -> (r: Self)
        ensures
            r.label_selector is None,
            r.match_label_keys is None,
            r.max_skew == 0,
            r.min_domains is None,
            r.node_affinity_policy is None,
            r.node_taints_policy is None,
            r.topology_key@.len() == 0,
            r.when_unsatisfiable@.len() == 0,
    {
        TopologySpreadConstraint {
            label_selector: None,
            match_label_keys: None,
            max_skew: 0,
            min_domains: None,
            node_affinity_policy: None,
            node_taints_policy: None,
            topology_key: String::new(),
            when_unsatisfiable: String::new(),
        }
    }
}

/// A copy of a list of constraints.
pub fn clone_spreads(v: &Vec<TopologySpreadConstraint>) -> (r: Vec<TopologySpreadConstraint>)
    ensures
        spreads(r@) == spreads(v@),
{
    let mut out: Vec<TopologySpreadConstraint> = Vec::new();
    let mut i: usize = 0;
    while i < v.len()
        invariant
            i <= v.len(),
            spreads(out@) == spreads(v@).take(i as int),
        decreases v.len() - i,
    {
        let ghost before = out@;
        let c = v[i].clone();
        out.push(c);
        assert(spreads(out@) =~= spreads(before).push(c@));
        assert(spreads(out@) =~= spreads(v@).take(i + 1));
        i = i + 1;
    }
    assert(spreads(out@) =~= spreads(v@));
    out
}

} // verus!
