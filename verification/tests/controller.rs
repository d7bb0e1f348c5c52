use redis_operator::controller::apply::apply_body;
use redis_operator::controller::{
    build_pdb, default_redis_resources, default_topology_spread, delete_if_exists,
    effective_redis_resources, effective_topology_spread, eviction_args, is_budget_computable,
    maxmemory_bytes, parse_quantity_bytes, pdb_effective_max_unavailable, persistence_args,
    reconcile_pdb, resolve_int_or_percent, unresolvable_note, validate_pdb, DeleteFailure,
    EventType, PdbAction, PdbRequest, PdbVerdict,
};
use redis_operator::crd::redis::{
    AofSpec, EvictionPolicy, FsyncPolicy, PersistenceSpec, PodDisruptionBudgetSpec, RdbSpec,
    ResourcesSpec,
};
use redis_operator::objects::{
    IntOrString, OwnerReference, Quantity, ResourceRequirements, TopologySpreadConstraint,
};
use redis_operator::str_map::StrMap;

fn map(entries: &[(&str, &str)]) -> StrMap<String> {
    let mut m = StrMap::new();
    for (k, v) in entries {
        m.insert(k.to_string(), v.to_string());
    }
    m
}

fn quantities(entries: &[(&str, &str)]) -> StrMap<Quantity> {
    let mut m = StrMap::new();
    for (k, v) in entries {
        m.insert(k.to_string(), Quantity(v.to_string()));
    }
    m
}

#[test]
fn persistence_defaults_to_rdb_and_aof_everysec() {
    // An absent block and an empty one must agree.
    let expected = " --dir /data --save \"3600 1 300 100 60 10000\" \
                    --appendonly yes --appendfsync everysec";
    assert_eq!(persistence_args(None), expected);
    assert_eq!(
        persistence_args(Some(&PersistenceSpec::default())),
        expected
    );
}

#[test]
fn persistence_master_switch_disables_both() {
    let p = PersistenceSpec {
        enabled: false,
        // Explicitly on, and still overridden by the master switch.
        rdb: Some(RdbSpec::default()),
        aof: Some(AofSpec::default()),
    };
    assert_eq!(
        persistence_args(Some(&p)),
        " --dir /data --save \"\" --appendonly no"
    );
}

#[test]
fn persistence_disabling_rdb_keeps_aof() {
    let p = PersistenceSpec {
        rdb: Some(RdbSpec {
            enabled: false,
            save: None,
        }),
        ..Default::default()
    };
    assert_eq!(
        persistence_args(Some(&p)),
        " --dir /data --save \"\" --appendonly yes --appendfsync everysec"
    );
}

#[test]
fn persistence_disabling_aof_keeps_rdb() {
    let p = PersistenceSpec {
        aof: Some(AofSpec {
            enabled: false,
            fsync: None,
        }),
        ..Default::default()
    };
    assert_eq!(
        persistence_args(Some(&p)),
        " --dir /data --save \"3600 1 300 100 60 10000\" --appendonly no"
    );
}

#[test]
fn persistence_joins_save_points_into_one_arg() {
    let p = PersistenceSpec {
        rdb: Some(RdbSpec {
            enabled: true,
            save: Some(vec!["900 1".into(), "300 10".into()]),
        }),
        ..Default::default()
    };
    assert!(persistence_args(Some(&p)).contains("--save \"900 1 300 10\""));
}

#[test]
fn persistence_empty_save_list_disables_snapshots() {
    let p = PersistenceSpec {
        rdb: Some(RdbSpec {
            enabled: true,
            save: Some(vec![]),
        }),
        ..Default::default()
    };
    assert!(persistence_args(Some(&p)).contains("--save \"\""));
}

#[test]
fn persistence_never_maps_to_redis_no() {
    let p = PersistenceSpec {
        aof: Some(AofSpec {
            enabled: true,
            fsync: Some(FsyncPolicy::Never),
        }),
        ..Default::default()
    };
    assert!(persistence_args(Some(&p)).ends_with("--appendonly yes --appendfsync no"));
}

#[test]
fn persistence_always_is_passed_through() {
    let p = PersistenceSpec {
        aof: Some(AofSpec {
            enabled: true,
            fsync: Some(FsyncPolicy::Always),
        }),
        ..Default::default()
    };
    assert!(persistence_args(Some(&p)).ends_with("--appendfsync always"));
}

#[test]
fn parse_quantity_handles_binary_suffixes() {
    assert_eq!(parse_quantity_bytes("1Ki"), Some(1024));
    assert_eq!(parse_quantity_bytes("1Mi"), Some(1024 * 1024));
    assert_eq!(parse_quantity_bytes("1Gi"), Some(1024 * 1024 * 1024));
    assert_eq!(parse_quantity_bytes("512Mi"), Some(512 * 1024 * 1024));
}

#[test]
fn parse_quantity_handles_decimal_suffixes() {
    assert_eq!(parse_quantity_bytes("1K"), Some(1_000));
    assert_eq!(parse_quantity_bytes("2G"), Some(2_000_000_000));
}

#[test]
fn parse_quantity_handles_plain_bytes() {
    assert_eq!(parse_quantity_bytes("1024"), Some(1024));
}

#[test]
fn parse_quantity_rejects_garbage() {
    assert_eq!(parse_quantity_bytes("abc"), None);
    assert_eq!(parse_quantity_bytes(""), None);
}

#[test]
fn maxmemory_takes_70_percent_of_limit() {
    let rr = default_redis_resources();
    let m = maxmemory_bytes(&rr).expect("should derive maxmemory");
    // 1Gi = 1073741824, * 7 / 10 = 751619276
    assert_eq!(m, 1024u64.pow(3) * 7 / 10);
}

#[test]
fn maxmemory_falls_back_to_request_when_no_limit() {
    let rr = ResourceRequirements {
        requests: Some(quantities(&[("memory", "2Gi")])),
        limits: None,
    };
    let m = maxmemory_bytes(&rr).expect("should derive maxmemory");
    assert_eq!(m, 2 * 1024u64.pow(3) * 7 / 10);
}

#[test]
fn maxmemory_is_absent_without_a_readable_memory() {
    let none = ResourceRequirements {
        requests: None,
        limits: Some(quantities(&[("cpu", "2")])),
    };
    assert_eq!(maxmemory_bytes(&none), None);
    let garbage = ResourceRequirements {
        requests: Some(quantities(&[("memory", "1Gi")])),
        limits: Some(quantities(&[("memory", "lots")])),
    };
    // The limit decides, even where only the request could be read.
    assert_eq!(maxmemory_bytes(&garbage), None);
}

#[test]
fn maxmemory_takes_its_share_of_huge_limits() {
    let rr = ResourceRequirements {
        requests: None,
        limits: Some(quantities(&[("memory", "8Ei")])),
    };
    assert_eq!(maxmemory_bytes(&rr), Some(6456360425798343065));
}

#[test]
fn effective_resources_merges_user_cpu_with_default_memory() {
    let user = ResourcesSpec {
        requests: Some(map(&[("cpu", "500m")])),
        limits: Some(map(&[("cpu", "1")])),
    };
    let rr = effective_redis_resources(Some(&user));
    let req = rr.requests.unwrap();
    let lim = rr.limits.unwrap();
    assert_eq!(req.get("cpu").unwrap().0, "500m");
    assert_eq!(req.get("memory").unwrap().0, "1Gi");
    assert_eq!(lim.get("cpu").unwrap().0, "1");
    assert_eq!(lim.get("memory").unwrap().0, "1Gi");
}

#[test]
fn effective_resources_keep_keys_that_have_no_default() {
    let user = ResourcesSpec {
        requests: Some(map(&[("ephemeral-storage", "1Gi")])),
        limits: None,
    };
    let rr = effective_redis_resources(Some(&user));
    let req = rr.requests.unwrap();
    assert_eq!(req.len(), 3);
    assert_eq!(req.get("ephemeral-storage").unwrap().0, "1Gi");
    assert_eq!(req.get("cpu").unwrap().0, "1200m");
    assert_eq!(rr.limits.unwrap().get("cpu").unwrap().0, "2");
}

#[test]
fn eviction_flag_is_always_there() {
    assert_eq!(eviction_args(None), " --maxmemory-policy noeviction");
    assert_eq!(
        eviction_args(Some(EvictionPolicy::VolatileTtl)),
        " --maxmemory-policy volatile-ttl"
    );
}

fn pct(s: &str) -> IntOrString {
    IntOrString::String(s.to_string())
}

fn min_available(v: IntOrString) -> PodDisruptionBudgetSpec {
    PodDisruptionBudgetSpec {
        min_available: Some(v),
        ..Default::default()
    }
}

fn max_unavailable(v: IntOrString) -> PodDisruptionBudgetSpec {
    PodDisruptionBudgetSpec {
        max_unavailable: Some(v),
        ..Default::default()
    }
}

fn test_labels() -> StrMap<String> {
    map(&[
        ("app.kubernetes.io/name", "redis"),
        ("app.kubernetes.io/instance", "cache"),
    ])
}

#[test]
fn resolve_percent_rounds_up_like_apiserver() {
    assert_eq!(resolve_int_or_percent(&pct("50%"), 3), Some(2));
    assert_eq!(resolve_int_or_percent(&pct("50%"), 5), Some(3));
    assert_eq!(resolve_int_or_percent(&pct("34%"), 3), Some(2));
}

#[test]
fn resolve_percent_handles_bounds() {
    assert_eq!(resolve_int_or_percent(&pct("0%"), 6), Some(0));
    assert_eq!(resolve_int_or_percent(&pct("100%"), 6), Some(6));
}

#[test]
fn resolve_takes_a_percentage_to_the_letter() {
    for s in [
        " 50%", "50% ", "50 %", "\t50%", "+50%", "-0%", "50.0%", "50%%", "٥٠%", "101%", "0x5%",
        "99999999999999999999%",
    ] {
        assert_eq!(resolve_int_or_percent(&pct(s), 3), None, "input {s:?}");
    }
    assert_eq!(resolve_int_or_percent(&pct("050%"), 4), Some(2));
}

#[test]
fn resolve_rejects_negative_integers() {
    assert_eq!(resolve_int_or_percent(&IntOrString::Int(-1), 6), None);
    assert_eq!(resolve_int_or_percent(&IntOrString::Int(0), 6), Some(0));
    assert_eq!(
        validate_pdb(&max_unavailable(IntOrString::Int(-1)), 6, 1),
        PdbVerdict::Unresolvable {
            field: "maxUnavailable",
            value: "-1".to_string()
        }
    );
}

#[test]
fn resolve_int_passes_through_unscaled() {
    assert_eq!(resolve_int_or_percent(&IntOrString::Int(2), 6), Some(2));
}

#[test]
fn resolve_rejects_bare_number_string() {
    assert_eq!(resolve_int_or_percent(&pct("3"), 6), None);
}

#[test]
fn resolve_rejects_garbage() {
    for s in ["abc", "", "%", "-10%", "150%"] {
        assert_eq!(resolve_int_or_percent(&pct(s), 6), None, "input {s:?}");
    }
}

#[test]
fn effective_max_unavailable_from_min_available() {
    let spec = min_available(IntOrString::Int(5));
    assert_eq!(pdb_effective_max_unavailable(&spec, 6), Ok(1));
}

#[test]
fn effective_max_unavailable_from_min_available_percent() {
    // 50% of 5 rounds up to 3, leaving 2 disruptable.
    let spec = min_available(pct("50%"));
    assert_eq!(pdb_effective_max_unavailable(&spec, 5), Ok(2));
}

#[test]
fn effective_max_unavailable_from_max_unavailable_percent() {
    // Rounds UP to 3, not down to 2 — rounding down here would under-report
    // the disruption permitted and wave through unsafe budgets.
    let spec = max_unavailable(pct("50%"));
    assert_eq!(pdb_effective_max_unavailable(&spec, 5), Ok(3));
}

#[test]
fn effective_max_unavailable_rejects_both_set() {
    let spec = PodDisruptionBudgetSpec {
        min_available: Some(IntOrString::Int(2)),
        max_unavailable: Some(IntOrString::Int(1)),
        ..Default::default()
    };
    assert_eq!(
        pdb_effective_max_unavailable(&spec, 6),
        Err(PdbVerdict::BothSet)
    );
}

#[test]
fn effective_max_unavailable_rejects_neither_set() {
    let spec = PodDisruptionBudgetSpec::default();
    assert_eq!(
        pdb_effective_max_unavailable(&spec, 6),
        Err(PdbVerdict::Empty)
    );
}

#[test]
fn only_a_far_off_integer_is_not_computable() {
    assert!(is_budget_computable(&min_available(IntOrString::Int(5)), 6));
    assert!(is_budget_computable(&min_available(pct("100%")), i32::MIN));
    assert!(is_budget_computable(&max_unavailable(IntOrString::Int(i32::MAX)), -2));
    assert!(!is_budget_computable(&min_available(IntOrString::Int(i32::MAX)), -2));
}

#[test]
fn validate_pdb_accepts_at_the_bound() {
    let spec = max_unavailable(IntOrString::Int(1));
    assert_eq!(validate_pdb(&spec, 6, 1), PdbVerdict::Accepted);
}

#[test]
fn validate_pdb_rejects_above_the_bound() {
    let spec = max_unavailable(IntOrString::Int(2));
    assert_eq!(
        validate_pdb(&spec, 6, 1),
        PdbVerdict::Unsafe {
            requested: 2,
            allowed: 1
        }
    );
}

#[test]
fn validate_pdb_accepts_min_available_at_the_bound() {
    let spec = min_available(IntOrString::Int(5));
    assert_eq!(validate_pdb(&spec, 6, 1), PdbVerdict::Accepted);
}

#[test]
fn validate_pdb_rejects_min_available_below_the_bound() {
    let spec = min_available(IntOrString::Int(3));
    assert_eq!(
        validate_pdb(&spec, 6, 1),
        PdbVerdict::Unsafe {
            requested: 3,
            allowed: 1
        }
    );
}

#[test]
fn validate_pdb_rejects_zero_bound_workload() {
    let spec = max_unavailable(IntOrString::Int(1));
    assert_eq!(
        validate_pdb(&spec, 3, 0),
        PdbVerdict::Unsafe {
            requested: 1,
            allowed: 0
        }
    );
}

#[test]
fn validate_pdb_rejects_unresolvable_percentage() {
    let spec = max_unavailable(pct("abc"));
    assert_eq!(
        validate_pdb(&spec, 6, 1),
        PdbVerdict::Unresolvable {
            field: "maxUnavailable",
            value: "abc".to_string()
        }
    );
}

#[test]
fn validate_pdb_not_applicable_for_single_pod_workload() {
    let spec = max_unavailable(IntOrString::Int(1));
    assert_eq!(validate_pdb(&spec, 1, 0), PdbVerdict::NotApplicable);
}

#[test]
fn only_ok_and_not_applicable_are_applied() {
    assert!(PdbVerdict::Accepted.should_apply());
    assert!(PdbVerdict::NotApplicable.should_apply());
    assert!(!PdbVerdict::Empty.should_apply());
    assert!(!PdbVerdict::BothSet.should_apply());
    assert!(!PdbVerdict::Unsafe {
        requested: 2,
        allowed: 1
    }
    .should_apply());
}

#[test]
fn verdicts_say_why() {
    assert_eq!(PdbVerdict::Accepted.reason(), None);
    assert_eq!(PdbVerdict::Empty.note(), None);
    assert_eq!(
        PdbVerdict::NotApplicable.reason(),
        Some("IneffectivePodDisruptionBudget")
    );
    assert_eq!(
        PdbVerdict::BothSet.reason(),
        Some("InvalidPodDisruptionBudget")
    );
    let v = PdbVerdict::Unsafe {
        requested: 2,
        allowed: 1,
    };
    assert_eq!(v.reason(), Some("UnsafePodDisruptionBudget"));
    assert_eq!(
        v.note().as_deref(),
        Some(
            "podDisruptionBudget permits 2 concurrent disruption(s) but this workload \
             survives at most 1; leaving the PDB unchanged"
        )
    );
}

#[test]
fn an_unresolvable_value_is_quoted() {
    let v = PdbVerdict::Unresolvable {
        field: "minAvailable",
        value: "a\"b\n".to_string(),
    };
    let expected = "podDisruptionBudget minAvailable value \"a\\\"b\\n\" is not a valid \
                    integer or percentage; leaving the PDB unchanged";
    assert_eq!(v.note().as_deref(), Some(expected));
    assert_eq!(unresolvable_note("minAvailable", "\"a\\\"b\\n\""), expected);
}

#[test]
fn build_pdb_selects_the_workload_labels() {
    let l = test_labels();
    let spec = max_unavailable(IntOrString::Int(1));
    let pdb = build_pdb("cache", "ns", &l, OwnerReference::default(), &spec);
    let selector = pdb.spec.unwrap().selector.unwrap();
    assert_eq!(selector.match_labels.unwrap(), l);
}

#[test]
fn build_pdb_sets_owner_reference() {
    let spec = max_unavailable(IntOrString::Int(1));
    let owner = OwnerReference {
        name: "cache".to_string(),
        ..Default::default()
    };
    let pdb = build_pdb("cache", "ns", &test_labels(), owner, &spec);
    let refs = pdb.metadata.owner_references.unwrap();
    assert_eq!(refs.len(), 1);
    assert_eq!(refs[0].name, "cache");
    assert_eq!(pdb.metadata.namespace.unwrap(), "ns");
}

#[test]
fn build_pdb_passes_through_unhealthy_pod_eviction_policy() {
    let spec = PodDisruptionBudgetSpec {
        min_available: Some(IntOrString::Int(2)),
        unhealthy_pod_eviction_policy: Some("AlwaysAllow".to_string()),
        ..Default::default()
    };
    let pdb = build_pdb(
        "cache",
        "ns",
        &test_labels(),
        OwnerReference::default(),
        &spec,
    );
    assert_eq!(
        pdb.spec.unwrap().unhealthy_pod_eviction_policy.unwrap(),
        "AlwaysAllow"
    );
}

fn request<'a>(
    labels: &'a StrMap<String>,
    desired: Option<PodDisruptionBudgetSpec>,
    total: i32,
    safe: i32,
) -> PdbRequest<'a> {
    PdbRequest {
        name: "cache",
        ns: "ns",
        labels,
        owner: OwnerReference::default(),
        desired,
        total,
        safe_max_unavailable: safe,
    }
}

#[test]
fn no_wanted_budget_is_deleted() {
    let l = test_labels();
    for desired in [None, Some(PodDisruptionBudgetSpec::default())] {
        let plan = reconcile_pdb(request(&l, desired, 3, 2));
        assert_eq!(plan.verdict, PdbVerdict::Empty);
        assert_eq!(plan.action, PdbAction::Delete);
        assert_eq!(plan.event, None);
    }
}

#[test]
fn a_refused_budget_leaves_the_live_one_alone_and_warns() {
    let l = test_labels();
    let plan = reconcile_pdb(request(&l, Some(max_unavailable(IntOrString::Int(3))), 3, 2));
    assert_eq!(plan.action, PdbAction::Keep);
    let event = plan.event.unwrap();
    assert_eq!(event.type_, EventType::Warning);
    assert_eq!(event.reason, "UnsafePodDisruptionBudget");
    assert_eq!(event.action, "ReconcilePodDisruptionBudget");
}

#[test]
fn a_safe_budget_is_applied_without_a_word() {
    let l = test_labels();
    let plan = reconcile_pdb(request(&l, Some(max_unavailable(IntOrString::Int(1))), 3, 2));
    assert_eq!(plan.event, None);
    match plan.action {
        PdbAction::Apply(p) => {
            assert_eq!(p.metadata.name.as_deref(), Some("cache"));
            assert_eq!(p.spec.unwrap().max_unavailable, Some(IntOrString::Int(1)));
        }
        other => panic!("{other:?}"),
    }
}

#[test]
fn a_budget_over_one_pod_is_applied_with_a_note() {
    let l = test_labels();
    let plan = reconcile_pdb(request(&l, Some(max_unavailable(IntOrString::Int(1))), 1, 0));
    assert!(matches!(plan.action, PdbAction::Apply(_)));
    assert_eq!(plan.event.unwrap().type_, EventType::Normal);
}

#[test]
fn default_topology_spread_is_soft_hostname_skew_one() {
    let c = default_topology_spread(&test_labels());
    assert_eq!(c.len(), 1);
    assert_eq!(c[0].max_skew, 1);
    assert_eq!(c[0].topology_key, "kubernetes.io/hostname");
    // Must stay soft: DoNotSchedule would leave pods Pending on any cluster
    // with fewer nodes than replicas.
    assert_eq!(c[0].when_unsatisfiable, "ScheduleAnyway");
}

#[test]
fn default_topology_spread_selector_matches_workload_labels() {
    let l = test_labels();
    let c = default_topology_spread(&l);
    assert_eq!(
        c[0].label_selector.clone().unwrap().match_labels.unwrap(),
        l
    );
}

#[test]
fn effective_topology_spread_none_yields_default() {
    let l = test_labels();
    assert_eq!(
        effective_topology_spread(None, &l),
        Some(default_topology_spread(&l))
    );
}

#[test]
fn effective_topology_spread_empty_vec_opts_out() {
    assert_eq!(
        effective_topology_spread(Some(&vec![]), &test_labels()),
        None
    );
}

#[test]
fn effective_topology_spread_user_override_wins_verbatim() {
    let user = vec![TopologySpreadConstraint {
        max_skew: 2,
        topology_key: "topology.kubernetes.io/zone".to_string(),
        when_unsatisfiable: "DoNotSchedule".to_string(),
        ..Default::default()
    }];
    assert_eq!(
        effective_topology_spread(Some(&user), &test_labels()),
        Some(user.clone())
    );
}

#[test]
fn a_deletion_of_what_is_gone_succeeds() {
    assert_eq!(delete_if_exists(Ok(())), Ok(()));
    assert_eq!(delete_if_exists(Err(DeleteFailure::Status(404))), Ok(()));
    assert_eq!(
        delete_if_exists(Err(DeleteFailure::Status(403))),
        Err(DeleteFailure::Status(403))
    );
    assert_eq!(
        delete_if_exists(Err(DeleteFailure::NoAnswer)),
        Err(DeleteFailure::NoAnswer)
    );
}

#[test]
fn an_applied_object_carries_its_type() {
    let value: serde_json::Value =
        serde_json::from_str(r#"{"kind":"old","metadata":{"name":"cache"},"spec":3}"#).unwrap();
    let body = apply_body(value, "apps/v1", "StatefulSet");
    let expected: serde_json::Value = serde_json::from_str(
        r#"{"apiVersion":"apps/v1","kind":"StatefulSet","metadata":{"name":"cache"},"spec":3}"#,
    )
    .unwrap();
    assert_eq!(body, expected);
}

#[test]
fn what_is_no_object_is_applied_as_it_is() {
    let value = serde_json::Value::Bool(true);
    assert_eq!(apply_body(value.clone(), "v1", "Service"), value);
}
