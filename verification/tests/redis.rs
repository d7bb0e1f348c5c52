use redis_operator::controller::redis::reconcile::{
    can_plan, data_pods_selector, identity, next_step, role_to_set, Found, Operation, Step,
};
use redis_operator::controller::redis::{
    build_headless_service, build_primary_service, build_redis_args, build_redis_statefulset,
    build_replicas_service, build_sentinel_args, build_sentinel_headless_service,
    build_sentinel_statefulset, default_redis_pdb, default_sentinel_pdb, determine_master_pod,
    labels, master_pod_from_host, parse_connected_slaves, parse_sentinel_master_addr, plan_redis,
    preserve_existing_master, primary_hostname, query_connected_replicas, query_sentinel_master,
    redis_status, sentinel_labels,
};
use redis_operator::controller::redis_cluster::command::pod_fqdn;
use redis_operator::controller::{validate_pdb, PdbVerdict};
use redis_operator::crd::redis::{
    EvictionPolicy, PodDisruptionBudgetSpec, RedisSpec, ResourcesSpec, RetentionSpec,
    SentinelSpec, StorageSpec,
};
use redis_operator::crd::Redis;
use redis_operator::error::Error;
use redis_operator::objects::{IntOrString, OwnerReference};

fn args_for(spec: RedisSpec) -> String {
    let r = Redis::new("cache", spec);
    build_redis_args(&r, "default")[2].clone()
}

#[test]
fn redis_args_carry_persistence_without_storage() {
    // Persistence no longer depends on `storage` — it lands on the
    // emptyDir at /data instead, surviving a container restart.
    let script = args_for(RedisSpec {
        storage: None,
        ..Default::default()
    });
    assert!(script.contains("--dir /data"));
    assert!(script.contains(r#"--save "3600 1 300 100 60 10000""#));
    assert!(script.contains("--appendonly yes --appendfsync everysec"));
}

#[test]
fn sentinel_conf_strip_covers_persistence_directives() {
    // A command-line `--save` appends to config-file `save` lines rather
    // than replacing them, so they must not survive a CONFIG REWRITE.
    let script = args_for(RedisSpec {
        sentinel: Some(SentinelSpec::default()),
        ..Default::default()
    });
    let sed = script
        .lines()
        .find(|l| l.starts_with("sed -i"))
        .expect("conf-stripping sed");
    for directive in ["loadmodule", "save", "appendonly", "appendfsync", "dir"] {
        assert!(sed.contains(directive), "sed should strip {directive}");
    }
    // The one directive the conf exists to carry must not be stripped.
    assert!(!sed.contains("replicaof"));
}

#[test]
fn redis_args_carry_the_eviction_policy() {
    let script = args_for(RedisSpec {
        eviction_policy: Some(EvictionPolicy::AllkeysLru),
        ..Default::default()
    });
    assert!(script.contains("--maxmemory-policy allkeys-lru"));
}

#[test]
fn redis_args_default_to_noeviction_on_every_start_path() {
    // Both the master and the replica branch of the non-Sentinel script
    // spell out the flag, so a promoted replica evicts identically.
    let script = args_for(RedisSpec::default());
    assert_eq!(script.matches("--maxmemory-policy noeviction").count(), 2);
}

#[test]
fn sentinel_args_carry_the_eviction_policy() {
    // Passed on the command line rather than written to the conf, so it
    // survives — and overrides — the CONFIG REWRITE Sentinel does on
    // failover.
    let script = args_for(RedisSpec {
        sentinel: Some(SentinelSpec::default()),
        eviction_policy: Some(EvictionPolicy::VolatileTtl),
        ..Default::default()
    });
    assert!(script.contains("--maxmemory-policy volatile-ttl"));
}

#[test]
fn the_whole_script_without_sentinel() {
    let script = args_for(RedisSpec::default());
    let flags = " --dir /data --save \"3600 1 300 100 60 10000\" --appendonly yes \
                 --appendfsync everysec --maxmemory 751619276 --maxmemory-policy noeviction";
    let expected = format!(
        r#"ORD=${{HOSTNAME##*-}}
HOST=$(hostname).cache.default.svc.cluster.local
ANNOUNCE="--replica-announce-ip $HOST --replica-announce-port 6379"
if [ "$ORD" = "0" ]; then
  exec docker-entrypoint.sh redis-server{flags} $ANNOUNCE
else
  exec docker-entrypoint.sh redis-server{flags} $ANNOUNCE --replicaof cache-0.cache.default.svc.cluster.local 6379
fi
"#
    );
    assert_eq!(script, expected);
}

#[test]
fn the_whole_script_with_sentinel() {
    let script = args_for(RedisSpec {
        sentinel: Some(SentinelSpec::default()),
        ..Default::default()
    });
    let expected = r#"set -eu
CONF=/data/redis.conf
HOST=$(hostname).cache.default.svc.cluster.local
ORD=${HOSTNAME##*-}
if [ ! -f "$CONF" ]; then
  REPLICAOF=""
  if getent hosts "cache-sentinel" >/dev/null 2>&1; then
    MASTER_INFO=$(timeout 2 redis-cli -h "cache-sentinel" -p 26379 sentinel get-master-addr-by-name mymaster 2>/dev/null || true)
    MASTER_HOST=$(echo "$MASTER_INFO" | head -n 1 | tr -d '"')
    if [ -n "$MASTER_HOST" ] && [ "$MASTER_HOST" != "$HOST" ]; then
      REPLICAOF="replicaof $MASTER_HOST 6379"
    fi
  fi
  if [ -z "$REPLICAOF" ] && [ "$ORD" != "0" ]; then
    REPLICAOF="replicaof cache-0.cache.default.svc.cluster.local 6379"
  fi
  printf '%s\n' "$REPLICAOF" > "$CONF"
fi
# CONFIG REWRITE (invoked by Sentinel on failover) serializes the full
# effective config back into this file. Two directives have to be stripped
# before the next start, leaving the conf carrying only the `replicaof` line
# it exists for:
#
#   loadmodule  - one line per loaded module. The redis:8 entrypoint already
#                 passes --loadmodule for bundled modules, so a persisted
#                 duplicate aborts the server on next start.
#   persistence - a command-line `--save` does not replace `save` lines from
#                 the config file, it appends to them. Left in place, the CR
#                 could never lower a save point again and the list would grow
#                 on every failover-and-restart cycle. The others override
#                 correctly, but are stripped too so the CR stays the single
#                 source of truth rather than relying on that asymmetry.
sed -i -E '/^[[:space:]]*(loadmodule|save|appendonly|appendfsync|dir|dbfilename|appendfilename|appenddirname)[[:space:]]/d' "$CONF"
exec docker-entrypoint.sh redis-server "$CONF" --dir /data --save "3600 1 300 100 60 10000" --appendonly yes --appendfsync everysec --maxmemory 751619276 --maxmemory-policy noeviction --replica-announce-ip "$HOST" --replica-announce-port 6379
"#;
    assert_eq!(script, expected);
}

#[test]
fn parse_connected_slaves_extracts_count() {
    let info = "# Replication\n\
                role:master\n\
                connected_slaves:2\n\
                slave0:ip=10.0.0.5,port=6379,state=online\n";
    assert_eq!(parse_connected_slaves(info), 2);
}

#[test]
fn parse_connected_slaves_missing_returns_zero() {
    assert_eq!(parse_connected_slaves("# Replication\nrole:slave\n"), 0);
}

#[test]
fn parse_connected_slaves_unparseable_returns_zero() {
    assert_eq!(parse_connected_slaves("connected_slaves:abc\n"), 0);
}

#[test]
fn parse_connected_slaves_takes_the_first_line() {
    assert_eq!(
        parse_connected_slaves("connected_slaves: 3 \r\nconnected_slaves:5\r\n"),
        3
    );
}

#[test]
fn parse_sentinel_master_addr_handles_prefixed_array() {
    let out = "1) \"cache-1.cache.default.svc.cluster.local\"\n2) \"6379\"\n";
    assert_eq!(
        parse_sentinel_master_addr(out),
        Some(("cache-1.cache.default.svc.cluster.local".into(), 6379))
    );
}

#[test]
fn parse_sentinel_master_addr_handles_raw_output() {
    let out = "cache-2.cache.ns.svc.cluster.local\n6379\n";
    assert_eq!(
        parse_sentinel_master_addr(out),
        Some(("cache-2.cache.ns.svc.cluster.local".into(), 6379))
    );
}

#[test]
fn parse_sentinel_master_addr_returns_none_for_nil() {
    assert_eq!(parse_sentinel_master_addr("(nil)\n"), None);
    assert_eq!(parse_sentinel_master_addr(""), None);
}

#[test]
fn parse_sentinel_master_addr_needs_host_and_port() {
    assert_eq!(parse_sentinel_master_addr("cache-0\n"), None);
    assert_eq!(parse_sentinel_master_addr("1) \"\"\n2) \"6379\"\n"), None);
    assert_eq!(parse_sentinel_master_addr("cache-0\nport\n"), None);
}

#[test]
fn master_pod_from_host_strips_dns_suffix() {
    assert_eq!(
        master_pod_from_host("cache-2.cache.default.svc.cluster.local").as_deref(),
        Some("cache-2")
    );
}

#[test]
fn master_pod_from_host_handles_short_name() {
    assert_eq!(master_pod_from_host("cache-0").as_deref(), Some("cache-0"));
}

#[test]
fn master_pod_from_host_rejects_empty() {
    assert_eq!(master_pod_from_host(""), None);
}

#[test]
fn a_pod_is_found_again_from_its_host_name() {
    let host = pod_fqdn("cache-7", "cache", "ns");
    assert_eq!(host, "cache-7.cache.ns.svc.cluster.local");
    assert_eq!(master_pod_from_host(&host).as_deref(), Some("cache-7"));
    assert_eq!(
        primary_hostname("cache", "ns"),
        "cache-0.cache.ns.svc.cluster.local"
    );
}

#[test]
fn redis_statefulset_gets_default_topology_spread() {
    let redis = Redis::new(
        "cache",
        RedisSpec {
            replicas: 3,
            ..Default::default()
        },
    );
    let sts = build_redis_statefulset(&redis, "ns", OwnerReference::default());
    let c = sts
        .spec
        .unwrap()
        .template
        .spec
        .unwrap()
        .topology_spread_constraints
        .expect("expected a default spread constraint");
    assert_eq!(c.len(), 1);
    assert_eq!(c[0].topology_key, "kubernetes.io/hostname");
    assert_eq!(c[0].when_unsatisfiable, "ScheduleAnyway");
    assert_eq!(
        c[0].label_selector.clone().unwrap().match_labels.unwrap(),
        labels("cache")
    );
}

#[test]
fn redis_statefulset_omits_spread_when_opted_out() {
    let redis = Redis::new(
        "cache",
        RedisSpec {
            replicas: 3,
            topology_spread_constraints: Some(vec![]),
            ..Default::default()
        },
    );
    let sts = build_redis_statefulset(&redis, "ns", OwnerReference::default());
    assert!(sts
        .spec
        .unwrap()
        .template
        .spec
        .unwrap()
        .topology_spread_constraints
        .is_none());
}

#[test]
fn sentinel_statefulset_spread_selects_sentinel_labels() {
    let sentinel = SentinelSpec {
        replicas: 3,
        ..Default::default()
    };
    let redis = Redis::new(
        "cache",
        RedisSpec {
            replicas: 3,
            sentinel: Some(sentinel.clone()),
            ..Default::default()
        },
    );
    let sts = build_sentinel_statefulset(&redis, "ns", &sentinel, OwnerReference::default());
    let c = sts
        .spec
        .unwrap()
        .template
        .spec
        .unwrap()
        .topology_spread_constraints
        .expect("expected a default spread constraint");
    // Must be the sentinel label set, not the data-pod one — sharing it
    // would silently merge the two spread domains.
    assert_eq!(
        c[0].label_selector.clone().unwrap().match_labels.unwrap(),
        sentinel_labels("cache")
    );
    assert_ne!(sentinel_labels("cache"), labels("cache"));
}

#[test]
fn storage_is_claimed_or_an_empty_directory() {
    let redis = Redis::new("cache", RedisSpec::default());
    let spec = build_redis_statefulset(&redis, "ns", OwnerReference::default())
        .spec
        .unwrap();
    assert!(spec.volume_claim_templates.is_none());
    let volumes = spec.template.spec.unwrap().volumes.unwrap();
    assert_eq!(volumes[0].name, "data");
    assert!(volumes[0].empty_dir);

    let redis = Redis::new(
        "cache",
        RedisSpec {
            storage: Some(StorageSpec {
                size: "5Gi".into(),
                storage_class: Some("fast".into()),
                retention: Some(RetentionSpec {
                    when_scaled: Some("Delete".into()),
                    when_deleted: None,
                }),
            }),
            ..Default::default()
        },
    );
    let spec = build_redis_statefulset(&redis, "ns", OwnerReference::default())
        .spec
        .unwrap();
    let claims = spec.volume_claim_templates.unwrap();
    assert_eq!(claims.len(), 1);
    assert_eq!(claims[0].metadata.name.as_deref(), Some("data"));
    let claim = claims[0].spec.as_ref().unwrap();
    assert_eq!(claim.storage_class_name.as_deref(), Some("fast"));
    assert_eq!(
        claim.requests.as_ref().unwrap().get("storage").unwrap().0,
        "5Gi"
    );
    let retention = spec.persistent_volume_claim_retention_policy.unwrap();
    assert_eq!(retention.when_scaled.as_deref(), Some("Delete"));
    assert_eq!(retention.when_deleted, None);
    let pod = spec.template.spec.unwrap();
    assert!(pod.volumes.is_none());
    assert_eq!(
        pod.containers[0].volume_mounts.as_ref().unwrap()[0].mount_path,
        "/data"
    );
}

#[test]
fn the_sentinel_container_differs_from_the_data_one() {
    let sentinel = SentinelSpec {
        replicas: 3,
        ..Default::default()
    };
    let redis = Redis::new(
        "cache",
        RedisSpec {
            image: "redis:8".into(),
            sentinel: Some(sentinel.clone()),
            ..Default::default()
        },
    );
    let sts = build_sentinel_statefulset(&redis, "ns", &sentinel, OwnerReference::default());
    assert_eq!(sts.metadata.name.as_deref(), Some("cache-sentinel"));
    let spec = sts.spec.unwrap();
    assert_eq!(spec.replicas, Some(3));
    assert_eq!(spec.min_ready_seconds, Some(10));
    let pod = spec.template.spec.unwrap();
    let c = &pod.containers[0];
    assert_eq!(c.image.as_deref(), Some("redis:8"));
    assert_eq!(c.command.as_ref().unwrap(), &vec!["sh".to_string()]);
    assert_eq!(c.args.as_ref().unwrap()[0], "-c");
    assert!(c.env.is_none());
    let ready = c.readiness_probe.as_ref().unwrap();
    assert_eq!(
        ready.exec_action.as_ref().unwrap().command.as_ref().unwrap(),
        &vec![
            "redis-cli".to_string(),
            "-p".to_string(),
            "26379".to_string(),
            "ping".to_string()
        ]
    );
    assert_eq!(ready.failure_threshold, Some(2));
    let live = c.liveness_probe.as_ref().unwrap();
    assert_eq!(live.initial_delay_seconds, Some(15));
    assert_eq!(live.period_seconds, Some(10));
    assert_eq!(live.timeout_seconds, Some(5));
    assert_eq!(live.failure_threshold, Some(6));
    let rr = c.resources.as_ref().unwrap();
    assert_eq!(rr.requests.as_ref().unwrap().get("cpu").unwrap().0, "50m");
    assert!(rr.limits.as_ref().unwrap().get("cpu").is_none());

    let bare = SentinelSpec {
        resources: Some(ResourcesSpec {
            requests: None,
            limits: None,
        }),
        image: Some("custom:1".into()),
        ..sentinel
    };
    let sts = build_sentinel_statefulset(&redis, "ns", &bare, OwnerReference::default());
    let pod = sts.spec.unwrap().template.spec.unwrap();
    let c = &pod.containers[0];
    assert_eq!(c.image.as_deref(), Some("custom:1"));
    assert!(c.resources.as_ref().unwrap().requests.is_none());
}

#[test]
fn services_select_what_they_serve() {
    let redis = Redis::new("cache", RedisSpec::default());
    let headless = build_headless_service(&redis, "ns", OwnerReference::default());
    assert_eq!(headless.metadata.name.as_deref(), Some("cache"));
    let spec = headless.spec.unwrap();
    assert_eq!(spec.cluster_ip.as_deref(), Some("None"));
    assert_eq!(spec.publish_not_ready_addresses, Some(true));
    assert_eq!(spec.selector.unwrap(), labels("cache"));
    assert_eq!(spec.ports.unwrap()[0].port, 6379);

    let primary = build_primary_service(&redis, "ns", OwnerReference::default(), "cache-1");
    assert_eq!(primary.metadata.name.as_deref(), Some("cache-primary"));
    let spec = primary.spec.unwrap();
    assert_eq!(spec.cluster_ip, None);
    assert_eq!(
        spec.selector
            .unwrap()
            .get("statefulset.kubernetes.io/pod-name")
            .unwrap(),
        "cache-1"
    );

    let replicas = build_replicas_service(&redis, "ns", OwnerReference::default());
    assert_eq!(replicas.metadata.name.as_deref(), Some("cache-replicas"));
    assert_eq!(
        replicas
            .spec
            .unwrap()
            .selector
            .unwrap()
            .get("redis-operator/role")
            .unwrap(),
        "replica"
    );

    let sentinel = build_sentinel_headless_service(&redis, "ns", OwnerReference::default());
    assert_eq!(sentinel.metadata.name.as_deref(), Some("cache-sentinel"));
    let ports = sentinel.spec.unwrap().ports.unwrap();
    assert_eq!(ports[0].port, 26379);
    assert_eq!(ports[0].target_port, Some(IntOrString::Int(26379)));
}

#[test]
fn default_redis_pdb_allows_one_pod_at_a_time() {
    let spec = RedisSpec {
        replicas: 3,
        ..Default::default()
    };
    let pdb = default_redis_pdb(&spec).expect("expected an automatic PDB");
    assert_eq!(pdb.max_unavailable, Some(IntOrString::Int(1)));
    assert_eq!(pdb.min_available, None);
    assert_eq!(
        pdb.unhealthy_pod_eviction_policy.as_deref(),
        Some("AlwaysAllow")
    );
}

#[test]
fn default_redis_pdb_is_skipped_below_two_replicas() {
    let spec = RedisSpec {
        replicas: 1,
        ..Default::default()
    };
    assert!(default_redis_pdb(&spec).is_none());
}

#[test]
fn default_redis_pdb_is_within_the_safe_bound() {
    // The generated default must never be one the validator would refuse.
    for replicas in 2..=9 {
        let spec = RedisSpec {
            replicas,
            ..Default::default()
        };
        let pdb = default_redis_pdb(&spec).expect("expected an automatic PDB");
        assert_eq!(
            validate_pdb(&pdb, replicas, spec.safe_max_unavailable()),
            PdbVerdict::Accepted,
            "replicas {replicas}"
        );
    }
}

#[test]
fn default_sentinel_pdb_is_within_the_safe_bound() {
    for replicas in 3..=9 {
        let s = SentinelSpec {
            replicas,
            ..Default::default()
        };
        let pdb = default_sentinel_pdb(&s).expect("expected an automatic PDB");
        assert_eq!(
            validate_pdb(&pdb, replicas, s.safe_max_unavailable()),
            PdbVerdict::Accepted,
            "replicas {replicas}"
        );
    }
}

fn sentinel_conf_for(sentinel: SentinelSpec) -> String {
    let r = Redis::new(
        "cache",
        RedisSpec {
            sentinel: Some(sentinel.clone()),
            ..Default::default()
        },
    );
    build_sentinel_args(&r, "ns", &sentinel)[2].clone()
}

#[test]
fn sentinel_conf_defaults_to_mymaster() {
    let conf = sentinel_conf_for(SentinelSpec {
        replicas: 3,
        ..Default::default()
    });
    assert!(
        conf.contains("sentinel monitor mymaster cache-0.cache.ns.svc.cluster.local 6379 2"),
        "{conf}"
    );
}

#[test]
fn sentinel_conf_uses_the_configured_master_name() {
    // Every per-master directive has to name the same master, or Sentinel
    // rejects the conf for referencing an unmonitored master.
    let conf = sentinel_conf_for(SentinelSpec {
        replicas: 3,
        master_name: Some("cache-primary".into()),
        ..Default::default()
    });
    assert!(!conf.contains("mymaster"), "{conf}");
    for directive in [
        "sentinel monitor cache-primary",
        "sentinel down-after-milliseconds cache-primary",
        "sentinel failover-timeout cache-primary",
        "sentinel parallel-syncs cache-primary",
    ] {
        assert!(conf.contains(directive), "missing {directive} in {conf}");
    }
}

#[test]
fn the_whole_sentinel_script() {
    let conf = sentinel_conf_for(SentinelSpec {
        replicas: 5,
        ..Default::default()
    });
    let expected = r#"set -eu
CONF=/data/sentinel.conf
HOST=$(hostname).cache-sentinel.ns.svc.cluster.local
if [ ! -f "$CONF" ]; then
  cat > "$CONF" <<EOF
port 26379
sentinel announce-ip $HOST
sentinel announce-port 26379
sentinel resolve-hostnames yes
sentinel announce-hostnames yes
sentinel monitor mymaster cache-0.cache.ns.svc.cluster.local 6379 3
sentinel down-after-milliseconds mymaster 5000
sentinel failover-timeout mymaster 10000
sentinel parallel-syncs mymaster 1
EOF
fi
# Heal duplicate known-replica/known-sentinel lines that upstream Sentinel
# occasionally persists (e.g. when a peer is observed under both hostname
# and IP forms). A duplicate (master, host, port) triple makes Sentinel
# refuse to parse its own rewritten config on next boot.
awk '
  /^sentinel known-replica / { k=$3" "$4" "$5; if (seen[k]++) next }
  /^sentinel known-sentinel / { k=$3" "$4" "$5; if (seen[k]++) next }
  { print }
' "$CONF" > "$CONF.tmp" && mv "$CONF.tmp" "$CONF"
exec redis-sentinel "$CONF"
"#;
    assert_eq!(conf, expected);
}

#[test]
fn redis_bootstrap_asks_sentinel_for_the_configured_master_name() {
    // The data pods discover their replication target through the same
    // name the sentinels monitor, so the two must not drift apart.
    let script = args_for(RedisSpec {
        sentinel: Some(SentinelSpec {
            replicas: 3,
            master_name: Some("cache-primary".into()),
            ..Default::default()
        }),
        ..Default::default()
    });
    assert!(
        script.contains("sentinel get-master-addr-by-name cache-primary"),
        "{script}"
    );
}

#[test]
fn default_sentinel_pdb_is_skipped_below_three_replicas() {
    for replicas in [1, 2] {
        let s = SentinelSpec {
            replicas,
            ..Default::default()
        };
        assert!(default_sentinel_pdb(&s).is_none(), "replicas {replicas}");
    }
}

#[test]
fn default_sentinel_pdb_uses_quorum_and_always_allow() {
    let s = SentinelSpec {
        replicas: 3,
        ..Default::default()
    };
    let pdb = default_sentinel_pdb(&s).expect("expected an automatic PDB");
    assert_eq!(pdb.min_available, Some(IntOrString::Int(2)));
    assert_eq!(pdb.max_unavailable, None);
    assert_eq!(
        pdb.unhealthy_pod_eviction_policy.as_deref(),
        Some("AlwaysAllow")
    );
}

#[test]
fn an_object_without_namespace_or_uid_is_not_reconciled() {
    assert_eq!(
        identity(None, None),
        Err(Error::MissingMetadata("namespace"))
    );
    let e = identity(Some("ns".into()), None).unwrap_err();
    assert_eq!(e, Error::MissingMetadata("uid"));
    assert_eq!(e.message(), "missing object metadata field: uid");
    assert!(identity(Some("ns".into()), Some(OwnerReference::default())).is_ok());
}

#[test]
fn the_plan_without_sentinel_tears_it_down() {
    let redis = Redis::new(
        "cache",
        RedisSpec {
            replicas: 3,
            ..Default::default()
        },
    );
    let plan = plan_redis(&redis, "ns", OwnerReference::default());
    assert!(!plan.refused);
    let ops = plan.operations;
    assert_eq!(ops.len(), 7);
    assert!(matches!(&ops[0], Operation::ApplyService(s) if s.metadata.name.as_deref() == Some("cache")));
    assert!(matches!(&ops[1], Operation::ApplyStatefulSet(_)));
    assert!(matches!(&ops[2], Operation::ApplyService(s) if s.metadata.name.as_deref() == Some("cache-replicas")));
    assert!(matches!(&ops[3], Operation::SettlePdb { name, .. } if name == "cache"));
    assert_eq!(ops[4], Operation::DeleteService("cache-sentinel".into()));
    assert_eq!(ops[5], Operation::DeleteStatefulSet("cache-sentinel".into()));
    assert_eq!(ops[6], Operation::DeletePdb("cache-sentinel".into()));
}

#[test]
fn a_small_sentinel_set_is_warned_about() {
    let redis = Redis::new(
        "cache",
        RedisSpec {
            replicas: 1,
            sentinel: Some(SentinelSpec {
                replicas: 2,
                ..Default::default()
            }),
            ..Default::default()
        },
    );
    let ops = plan_redis(&redis, "ns", OwnerReference::default()).operations;
    assert_eq!(ops.len(), 8);
    match &ops[6] {
        Operation::Emit(e) => {
            assert_eq!(e.reason, "SentinelNotHighlyAvailable");
            assert_eq!(
                e.note,
                "sentinel.replicas is 2; failover needs at least 3 to survive losing one \
                 sentinel. No PodDisruptionBudget was created, because minAvailable would equal \
                 the replica count and block every node drain."
            );
        }
        other => panic!("{other:?}"),
    }
    assert!(matches!(&ops[7], Operation::SettlePdb { name, .. } if name == "cache-sentinel"));
}

#[test]
fn a_refused_budget_does_not_stop_the_plan() {
    let redis = Redis::new(
        "cache",
        RedisSpec {
            replicas: 3,
            pod_disruption_budget: Some(PodDisruptionBudgetSpec {
                max_unavailable: Some(IntOrString::Int(3)),
                ..Default::default()
            }),
            ..Default::default()
        },
    );
    let plan = plan_redis(&redis, "ns", OwnerReference::default());
    assert!(plan.refused);
    assert_eq!(plan.operations.len(), 7);
    let status = redis_status(&redis, "ns", "cache-0".into(), plan.refused, 3, None, 0);
    assert_eq!(status.phase.as_deref(), Some("Degraded"));
}

#[test]
fn numbers_out_of_bounds_cannot_be_planned_with() {
    let far = |replicas, n| {
        Redis::new(
            "cache",
            RedisSpec {
                replicas,
                pod_disruption_budget: Some(PodDisruptionBudgetSpec {
                    min_available: Some(IntOrString::Int(n)),
                    ..Default::default()
                }),
                ..Default::default()
            },
        )
    };
    assert!(can_plan(&far(3, 1)));
    assert!(can_plan(&far(3, i32::MIN)));
    assert!(!can_plan(&far(-2, i32::MAX)));
    assert!(!can_plan(&far(i32::MIN, 1)));
}

#[test]
fn the_primary_follows_sentinel() {
    let plain = Redis::new("cache", RedisSpec::default());
    assert!(query_sentinel_master(&plain).is_none());
    assert_eq!(
        determine_master_pod(&plain, None).as_deref(),
        Some("cache-0")
    );

    let watched = Redis::new(
        "cache",
        RedisSpec {
            sentinel: Some(SentinelSpec::default()),
            ..Default::default()
        },
    );
    let query = query_sentinel_master(&watched).unwrap();
    assert_eq!(query.pod, "cache-sentinel-0");
    assert_eq!(
        query.argv.join(" "),
        "redis-cli -p 26379 sentinel get-master-addr-by-name mymaster"
    );
    let answer = "cache-2.cache.ns.svc.cluster.local\n6379\n";
    assert_eq!(
        determine_master_pod(&watched, Some(answer)).as_deref(),
        Some("cache-2")
    );
    // No primary yet: the first pod is the one to start with.
    assert_eq!(
        determine_master_pod(&watched, Some("(nil)\n")).as_deref(),
        Some("cache-0")
    );
    // A failed query, or a host that is none, keeps what is there.
    assert_eq!(determine_master_pod(&watched, None), None);
    assert_eq!(
        determine_master_pod(&watched, Some(".cache\n6379\n")),
        None
    );
    assert_eq!(
        preserve_existing_master("cache", Some("cache-1".into())),
        "cache-1"
    );
    assert_eq!(preserve_existing_master("cache", None), "cache-0");
}

#[test]
fn roles_are_set_only_where_they_differ() {
    assert_eq!(role_to_set("cache-0", None, "cache-0"), Some("master"));
    assert_eq!(role_to_set("cache-1", None, "cache-0"), Some("replica"));
    assert_eq!(role_to_set("cache-1", Some("replica"), "cache-0"), None);
    assert_eq!(
        role_to_set("cache-1", Some("replica"), "cache-1"),
        Some("master")
    );
    assert_eq!(
        data_pods_selector("cache"),
        "app.kubernetes.io/name=redis,app.kubernetes.io/instance=cache"
    );
}

#[test]
fn the_status_says_what_was_seen() {
    let redis = Redis::new(
        "cache",
        RedisSpec {
            replicas: 3,
            ..Default::default()
        },
    );
    let s = redis_status(
        &redis,
        "ns",
        "cache-1".into(),
        false,
        3,
        Some("role:master\r\nconnected_slaves:2\r\n"),
        0,
    );
    assert_eq!(s.phase.as_deref(), Some("Running"));
    assert_eq!(s.ready_replicas, 3);
    assert_eq!(s.connected_replicas, 2);
    assert_eq!(s.master_pod.as_deref(), Some("cache-1"));
    assert_eq!(
        s.primary_host.as_deref(),
        Some("cache-1.cache.ns.svc.cluster.local")
    );
    let s = redis_status(&redis, "ns", "cache-1".into(), false, 2, None, 1);
    assert_eq!(s.phase.as_deref(), Some("Pending"));
    assert_eq!(s.connected_replicas, 0);
    // There is no Sentinel to be ready.
    assert_eq!(s.sentinel_replicas_ready, 0);

    // One pod has no replicas, whatever it says.
    let one = Redis::new(
        "cache",
        RedisSpec {
            replicas: 1,
            sentinel: Some(SentinelSpec::default()),
            ..Default::default()
        },
    );
    let reply = Some("connected_slaves:2\r\n");
    let s = redis_status(&one, "ns", "cache-0".into(), false, 1, reply, 3);
    assert_eq!(s.connected_replicas, 0);
    assert_eq!(s.sentinel_replicas_ready, 3);
    let s = redis_status(&redis, "ns", "cache-0".into(), false, 0, reply, 0);
    assert_eq!(s.connected_replicas, 0);

    let none = Redis::new("cache", RedisSpec::default());
    let s = redis_status(&none, "ns", "cache-0".into(), false, 0, None, 0);
    assert_eq!(s.phase.as_deref(), Some("Pending"));
    assert_eq!(s.primary_host, None);
    assert_eq!(
        query_connected_replicas("cache-1").argv.join(" "),
        "redis-cli info replication"
    );
}

#[test]
fn steps_follow_each_other_to_the_end() {
    let walk = |redis: &Redis, found: Found| {
        let mut steps = vec![Step::Operate(0)];
        while *steps.last().unwrap() != Step::Requeue {
            let next = next_step(*steps.last().unwrap(), found, redis, 2);
            steps.push(next);
        }
        steps
    };
    let plain = Redis::new("cache", RedisSpec::default());
    assert_eq!(
        walk(
            &plain,
            Found {
                master: false,
                ready: 0
            }
        ),
        vec![
            Step::Operate(0),
            Step::Operate(1),
            Step::ApplyPrimary,
            Step::LabelPods,
            Step::ReadReady,
            Step::PatchStatus,
            Step::Requeue
        ]
    );
    let watched = Redis::new(
        "cache",
        RedisSpec {
            replicas: 3,
            sentinel: Some(SentinelSpec::default()),
            ..Default::default()
        },
    );
    assert_eq!(
        walk(
            &watched,
            Found {
                master: false,
                ready: 3
            }
        ),
        vec![
            Step::Operate(0),
            Step::Operate(1),
            Step::AskSentinel,
            Step::ReadSelector,
            Step::ApplyPrimary,
            Step::LabelPods,
            Step::ReadReady,
            Step::AskReplicas,
            Step::ReadSentinelReady,
            Step::PatchStatus,
            Step::Requeue
        ]
    );
}
