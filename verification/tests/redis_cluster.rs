use redis_operator::controller::redis_cluster::balance::replicate_command;
use redis_operator::controller::redis_cluster::census::is_countable;
use redis_operator::controller::redis_cluster::drain::can_drain;
use redis_operator::controller::redis_cluster::grow::{grow_commands, plan_additions, Addition};
use redis_operator::controller::redis_cluster::heal::{
    acted, can_heal, heal_candidates, heal_step, meet_command, myid_command, repair_candidate, repair_command,
    replication_info_command, HealStep,
};
use redis_operator::controller::redis_cluster::reconcile::{
    can_plan, next_stage, next_step, plan_cluster_pdb, Found, Phase, Stage, Step,
};
use redis_operator::controller::redis_cluster::seed::{cluster_info, cluster_nodes, SeedStep};
use redis_operator::controller::redis_cluster::status::pending_status;
use redis_operator::controller::redis_cluster::table::{ClusterInfo, ClusterNode};
use redis_operator::controller::redis_cluster::{
    balance_replicas, bootstrap, build_service, build_statefulset, compute_status,
    drain_for_scale_down, find_seed, labels, parse_cluster_info, parse_cluster_nodes,
    parse_replication_target, pod_hostname, pod_of,
};
use redis_operator::controller::PdbAction;
use redis_operator::crd::redis::{EvictionPolicy, PodDisruptionBudgetSpec};
use redis_operator::crd::redis_cluster::RedisClusterSpec;
use redis_operator::crd::RedisCluster;
use redis_operator::error::Error;
use redis_operator::objects::{IntOrString, OwnerReference};

#[test]
fn cluster_statefulset_gets_default_topology_spread() {
    let rc = RedisCluster::new(
        "redis",
        RedisClusterSpec {
            masters: 3,
            replicas_per_master: 1,
            ..Default::default()
        },
    );
    let sts = build_statefulset(&rc, "ns", OwnerReference::default());
    let spec = sts.spec.unwrap();
    assert_eq!(spec.replicas, Some(6));
    let c = spec
        .template
        .spec
        .unwrap()
        .topology_spread_constraints
        .expect("expected a default spread constraint");
    assert_eq!(c.len(), 1);
    assert_eq!(c[0].max_skew, 1);
    assert_eq!(c[0].topology_key, "kubernetes.io/hostname");
    assert_eq!(c[0].when_unsatisfiable, "ScheduleAnyway");
    assert_eq!(
        c[0].label_selector.clone().unwrap().match_labels.unwrap(),
        labels("redis")
    );
}

#[test]
fn cluster_statefulset_carries_the_eviction_policy() {
    let rc = RedisCluster::new(
        "redis",
        RedisClusterSpec {
            eviction_policy: Some(EvictionPolicy::AllkeysLfu),
            ..Default::default()
        },
    );
    let sts = build_statefulset(&rc, "ns", OwnerReference::default());
    let args = sts.spec.unwrap().template.spec.unwrap().containers[0]
        .args
        .clone()
        .expect("container should have args");
    assert!(args[0].contains("--maxmemory-policy allkeys-lfu"));
}

#[test]
fn cluster_statefulset_defaults_to_noeviction() {
    let rc = RedisCluster::new("redis", RedisClusterSpec::default());
    let sts = build_statefulset(&rc, "ns", OwnerReference::default());
    let args = sts.spec.unwrap().template.spec.unwrap().containers[0]
        .args
        .clone()
        .expect("container should have args");
    assert!(args[0].contains("--maxmemory-policy noeviction"));
}

#[test]
fn cluster_statefulset_omits_spread_when_opted_out() {
    let rc = RedisCluster::new(
        "redis",
        RedisClusterSpec {
            masters: 3,
            replicas_per_master: 1,
            topology_spread_constraints: Some(vec![]),
            ..Default::default()
        },
    );
    let sts = build_statefulset(&rc, "ns", OwnerReference::default());
    assert!(sts
        .spec
        .unwrap()
        .template
        .spec
        .unwrap()
        .topology_spread_constraints
        .is_none());
}

#[test]
fn the_whole_cluster_command_line() {
    let rc = RedisCluster::new("redis", RedisClusterSpec::default());
    let sts = build_statefulset(&rc, "ns", OwnerReference::default());
    let pod = sts.spec.unwrap().template.spec.unwrap();
    assert_eq!(
        pod.containers[0].command.as_ref().unwrap(),
        &vec!["sh".to_string(), "-c".to_string()]
    );
    assert_eq!(
        pod.containers[0].args.as_ref().unwrap()[0],
        "exec docker-entrypoint.sh redis-server --cluster-enabled yes \
         --cluster-config-file /data/nodes.conf --cluster-node-timeout 5000 \
         --cluster-announce-hostname \"$(hostname).redis.ns.svc.cluster.local\" \
         --cluster-preferred-endpoint-type hostname --dir /data \
         --save \"3600 1 300 100 60 10000\" --appendonly yes --appendfsync everysec \
         --maxmemory 751619276 --maxmemory-policy noeviction"
    );
    let ports = pod.containers[0].ports.as_ref().unwrap();
    assert_eq!(ports[1].container_port, 16379);
    let svc = build_service(&rc, "ns", OwnerReference::default());
    let ports = svc.spec.unwrap().ports.unwrap();
    assert_eq!(ports.len(), 2);
    assert_eq!(ports[1].name.as_deref(), Some("cluster-bus"));
    assert_eq!(ports[1].port, 16379);
}

#[test]
fn cluster_info_is_read() {
    let info = parse_cluster_info(
        "cluster_state:ok\r\ncluster_slots_assigned:16384\r\ncluster_known_nodes:6\r\n",
    );
    assert_eq!(info.cluster_state, "ok");
    assert_eq!(info.cluster_known_nodes, 6);
    let info = parse_cluster_info("garbage\ncluster_known_nodes:many\n");
    assert_eq!(info.cluster_state, "");
    assert_eq!(info.cluster_known_nodes, 0);
}

const TABLE: &str = "\
m0 10.0.0.1:6379@16379,redis-0.redis.ns.svc.cluster.local myself,master - 0 0 1 connected 0-5460
m1 10.0.0.2:6379@16379,redis-1.redis.ns.svc.cluster.local master - 0 0 2 connected 5461-10922
m2 10.0.0.3:6379@16379,redis-2.redis.ns.svc.cluster.local master - 0 0 3 connected 10923-16383
r0 10.0.0.4:6379@16379,redis-3.redis.ns.svc.cluster.local slave m0 0 0 1 connected
r1 10.0.0.5:6379@16379,redis-4.redis.ns.svc.cluster.local slave m1 0 0 2 connected
r2 10.0.0.6:6379@16379,redis-5.redis.ns.svc.cluster.local slave m2 0 0 3 connected
";

#[test]
fn the_node_table_is_read() {
    let nodes = parse_cluster_nodes(TABLE);
    assert_eq!(nodes.len(), 6);
    assert_eq!(
        nodes[0],
        ClusterNode {
            id: "m0".into(),
            addr: "10.0.0.1:6379".into(),
            hostname: "redis-0.redis.ns.svc.cluster.local".into(),
            flags: vec!["myself".into(), "master".into()],
            master_id: None,
            slots: vec![(0, 5460)],
        }
    );
    assert!(nodes[0].is_master());
    assert!(!nodes[3].is_master());
    assert_eq!(nodes[3].master_id.as_deref(), Some("m0"));
    assert_eq!(nodes[1].slot_count(), 5462);
}

#[test]
fn nodes_without_a_host_name_are_passed_over() {
    assert!(parse_cluster_nodes("id 10.0.0.1:6379@16379 master - 0 0 1 connected 0-5\n").is_empty());
    assert!(parse_cluster_nodes("too short\n").is_empty());
}

#[test]
fn slots_on_the_move_are_passed_over() {
    let nodes = parse_cluster_nodes(
        "id 10.0.0.1:6379@16379,h master - 0 0 1 connected 7 9-12 [93-<-abc] x-y 70000\n",
    );
    assert_eq!(nodes[0].slots, vec![(7, 7), (9, 12)]);
    assert_eq!(nodes[0].slot_count(), 5);
}

#[test]
fn ranges_that_run_backwards_cannot_be_counted() {
    let nodes =
        parse_cluster_nodes("id 10.0.0.1:6379@16379,h master - 0 0 1 connected 12-9\n");
    assert!(!nodes[0].slots_countable());
    assert!(!is_countable(&nodes, 1));
    // Of a healthy node they need not be; of a master that goes they must.
    assert!(can_heal(&nodes));
    assert!(can_drain(&nodes, "redis", "ns", 0, 3));
    let nodes = parse_cluster_nodes(
        "id 1:1@1,redis-2.redis.ns.svc.cluster.local master,fail - 0 0 1 connected 12-9\n",
    );
    assert!(!can_heal(&nodes));
    // Where no master stays, the drain is refused without counting.
    assert!(can_drain(&nodes, "redis", "ns", 2, 3));
    assert!(drain_for_scale_down(&nodes, "redis", "ns", "redis-0", 2, 3).is_err());
    let nodes = parse_cluster_nodes(
        "id 1:1@1,redis-2.redis.ns.svc.cluster.local master,fail - 0 0 1 connected 12-9\n\
         to 1:1@1,redis-0.redis.ns.svc.cluster.local master - 0 0 1 connected\n",
    );
    assert!(!can_drain(&nodes, "redis", "ns", 2, 3));
    assert!(can_drain(&nodes, "redis", "ns", 3, 4));
    assert!(is_countable(&parse_cluster_nodes(TABLE), 1));
}

#[test]
fn hosts_and_pods_are_named_alike() {
    let host = pod_hostname("redis", "ns", 12);
    assert_eq!(host, "redis-12.redis.ns.svc.cluster.local");
    assert_eq!(pod_of(&host), "redis-12");
    assert_eq!(pod_of("bare"), "bare");
}

fn info(state: &str, known: i32) -> Option<ClusterInfo> {
    Some(ClusterInfo {
        cluster_state: state.into(),
        cluster_known_nodes: known,
    })
}

#[test]
fn the_first_healthy_member_is_the_seed() {
    assert_eq!(find_seed(&vec![], 3), SeedStep::Ask { ordinal: 0 });
    assert_eq!(find_seed(&vec![], 0), SeedStep::Absent);
    let mut replies = vec![info("ok", 1)];
    assert_eq!(find_seed(&replies, 3), SeedStep::Ask { ordinal: 1 });
    replies.push(info("fail", 6));
    assert_eq!(find_seed(&replies, 3), SeedStep::Ask { ordinal: 2 });
    // All were asked, and none is healthy: the member is better than none.
    replies.push(None);
    assert_eq!(find_seed(&replies, 3), SeedStep::Found { ordinal: 1 });
    replies[2] = info("ok", 6);
    assert_eq!(find_seed(&replies, 3), SeedStep::Found { ordinal: 2 });
    assert_eq!(find_seed(&vec![None, info("ok", 1)], 2), SeedStep::Absent);
    assert_eq!(cluster_info("redis-0").argv.join(" "), "redis-cli cluster info");
    assert_eq!(cluster_nodes("redis-0").argv.join(" "), "redis-cli cluster nodes");
}

#[test]
fn a_cluster_is_made_of_all_pods() {
    let c = bootstrap("redis", "ns", 3, 0);
    assert_eq!(c.pod, "redis-0");
    assert_eq!(
        c.argv.join(" "),
        "redis-cli --cluster create redis-0.redis.ns.svc.cluster.local:6379 \
         redis-1.redis.ns.svc.cluster.local:6379 redis-2.redis.ns.svc.cluster.local:6379 \
         --cluster-replicas 0 --cluster-yes"
    );
}

#[test]
fn a_balanced_cluster_is_running() {
    let nodes = parse_cluster_nodes(TABLE);
    let s = compute_status(info("ok", 6).unwrap(), &nodes, 1);
    assert_eq!(s.phase.as_deref(), Some("Running"));
    assert_eq!(s.cluster_state.as_deref(), Some("ok"));
    assert_eq!(s.ready_nodes, 6);
    assert_eq!(s.masters, 3);
    assert_eq!(s.replicas, 3);
    assert_eq!(s.slots_assigned, 16384);
    assert_eq!(s.replica_imbalance, 0);
    assert_eq!(s.nodes[0].role, "master");
    assert_eq!(s.nodes[0].slot_count, 5461);
    assert_eq!(s.nodes[0].replica_count, 1);
    assert_eq!(s.nodes[0].master_id, "");
    assert_eq!(s.nodes[3].role, "replica");
    assert_eq!(s.nodes[3].master_id, "m0");
    assert_eq!(s.nodes[3].slot_count, 0);
}

#[test]
fn an_uneven_cluster_is_degraded_and_a_failed_one_pending() {
    let nodes = parse_cluster_nodes(TABLE);
    let s = compute_status(info("ok", 6).unwrap(), &nodes, 2);
    assert_eq!(s.phase.as_deref(), Some("Degraded"));
    assert_eq!(s.replica_imbalance, 3);
    let s = compute_status(info("fail", 6).unwrap(), &nodes, 1);
    assert_eq!(s.phase.as_deref(), Some("Pending"));
    let s = pending_status();
    assert_eq!(s.phase.as_deref(), Some("Pending"));
    assert!(s.nodes.is_empty());
}

#[test]
fn a_master_that_is_only_replicated_counts_as_well() {
    let nodes = parse_cluster_nodes(
        "r0 10.0.0.4:6379@16379,redis-3.h slave gone 0 0 1 connected\n\
         r1 10.0.0.5:6379@16379,redis-4.h slave gone 0 0 1 connected\n",
    );
    let s = compute_status(info("ok", 3).unwrap(), &nodes, 1);
    assert_eq!(s.masters, 0);
    assert_eq!(s.replica_imbalance, 1);
}

#[test]
fn a_master_is_reported_without_a_master_of_its_own() {
    let nodes = parse_cluster_nodes("a 1:1@1,redis-0.h master b 0 0 1 connected\n");
    let s = compute_status(info("ok", 2).unwrap(), &nodes, 0);
    assert_eq!(s.nodes[0].role, "master");
    assert_eq!(s.nodes[0].master_id, "");
}

#[test]
fn nodes_are_reported_by_host_name() {
    let nodes = parse_cluster_nodes(
        "a 1:1@1,redis-2.h master - 0 0 1 connected\n\
         b 1:1@1,redis-10.h master - 0 0 1 connected\n\
         c 1:1@1,redis-0.h master - 0 0 1 connected\n\
         d 1:1@1,redis-0.h slave c 0 0 1 connected\n",
    );
    let s = compute_status(info("ok", 4).unwrap(), &nodes, 0);
    let ids: Vec<&str> = s.nodes.iter().map(|n| n.id.as_str()).collect();
    assert_eq!(ids, ["c", "d", "b", "a"]);
}

#[test]
fn missing_pods_join_as_masters_first_and_then_where_replicas_lack() {
    let nodes = parse_cluster_nodes(
        "m0 1:1@1,redis-0.redis.ns.svc.cluster.local master - 0 0 1 connected\n\
         m1 1:1@1,redis-1.redis.ns.svc.cluster.local master - 0 0 1 connected\n\
         r0 1:1@1,redis-3.redis.ns.svc.cluster.local slave m0 0 0 1 connected\n",
    );
    let plan = plan_additions(&nodes, "redis", "ns", 3, 6);
    assert_eq!(
        plan,
        vec![
            Addition::Master { ordinal: 2 },
            Addition::Replica {
                ordinal: 4,
                of: "m1".into()
            },
            Addition::Replica {
                ordinal: 5,
                of: "m0".into()
            },
        ]
    );
    let commands = grow_commands(&plan, "redis", "ns", "redis-0");
    let lines: Vec<String> = commands.iter().map(|c| c.argv.join(" ")).collect();
    assert_eq!(
        lines,
        [
            "redis-cli --cluster add-node redis-2.redis.ns.svc.cluster.local:6379 \
             redis-0.redis.ns.svc.cluster.local:6379",
            "redis-cli --cluster add-node redis-4.redis.ns.svc.cluster.local:6379 \
             redis-0.redis.ns.svc.cluster.local:6379 --cluster-slave --cluster-master-id m1",
            "redis-cli --cluster add-node redis-5.redis.ns.svc.cluster.local:6379 \
             redis-0.redis.ns.svc.cluster.local:6379 --cluster-slave --cluster-master-id m0",
            "redis-cli --cluster rebalance redis-0.redis.ns.svc.cluster.local:6379 \
             --cluster-use-empty-masters",
        ]
    );
    assert!(commands.iter().all(|c| c.pod == "redis-0"));
}

#[test]
fn nothing_joins_where_all_are_members_or_none_can_be_followed() {
    let nodes = parse_cluster_nodes(TABLE);
    assert!(plan_additions(&nodes, "redis", "ns", 3, 6).is_empty());
    assert!(plan_additions(&vec![], "redis", "ns", 0, 2).is_empty());
    assert!(grow_commands(&vec![], "redis", "ns", "redis-0").is_empty());
}

#[test]
fn surplus_replicas_go_where_they_lack() {
    let nodes = parse_cluster_nodes(
        "m0 1:1@1,redis-0.h master - 0 0 1 connected\n\
         m1 1:1@1,redis-1.h master - 0 0 1 connected\n\
         m2 1:1@1,redis-2.h master - 0 0 1 connected\n\
         a 1:1@1,redis-3.h slave m0 0 0 1 connected\n\
         b 1:1@1,redis-4.h slave m0 0 0 1 connected\n\
         c 1:1@1,redis-5.h slave m0 0 0 1 connected\n\
         d 1:1@1,redis-6.h slave m0 0 0 1 connected\n",
    );
    let moves = balance_replicas(&nodes, 1);
    let got: Vec<(&str, &str, &str)> = moves
        .iter()
        .map(|m| {
            (
                m.replica_pod.as_str(),
                m.from_master.as_str(),
                m.to_master.as_str(),
            )
        })
        .collect();
    assert_eq!(got, [("redis-4", "m0", "m1"), ("redis-5", "m0", "m2")]);
    assert_eq!(
        replicate_command("redis-4", "m1").argv.join(" "),
        "redis-cli cluster replicate m1"
    );
    assert!(balance_replicas(&parse_cluster_nodes(TABLE), 1).is_empty());
    assert!(balance_replicas(&vec![], -1).is_empty());
}

#[test]
fn a_shrinking_cluster_is_drained() {
    let nodes = parse_cluster_nodes(TABLE);
    let commands = drain_for_scale_down(&nodes, "redis", "ns", "redis-0", 2, 6).unwrap();
    let lines: Vec<String> = commands.iter().map(|c| c.argv.join(" ")).collect();
    let seed = "redis-0.redis.ns.svc.cluster.local:6379";
    assert_eq!(
        lines,
        [
            format!("redis-cli --cluster del-node {seed} r0"),
            format!("redis-cli --cluster del-node {seed} r1"),
            format!("redis-cli --cluster del-node {seed} r2"),
            format!(
                "redis-cli --cluster reshard {seed} --cluster-from m2 --cluster-to m0 \
                 --cluster-slots 5461 --cluster-yes"
            ),
            format!("redis-cli --cluster del-node {seed} m2"),
            format!("redis-cli --cluster rebalance {seed} --cluster-use-empty-masters"),
        ]
    );
}

#[test]
fn a_drain_of_replicas_moves_no_slots() {
    let nodes = parse_cluster_nodes(TABLE);
    let commands = drain_for_scale_down(&nodes, "redis", "ns", "redis-0", 3, 6).unwrap();
    assert_eq!(commands.len(), 3);
}

#[test]
fn a_drain_of_all_masters_is_refused() {
    let nodes = parse_cluster_nodes(TABLE);
    let err = drain_for_scale_down(&nodes, "redis", "ns", "redis-0", 0, 6).unwrap_err();
    assert_eq!(
        err,
        Error::Exec("scale-down would leave zero surviving masters".into())
    );
    assert_eq!(
        err.message(),
        "pod exec error: scale-down would leave zero surviving masters"
    );
}

const FAILING: &str = "\
m0 10.0.0.1:6379@16379,redis-0.h master - 0 0 1 connected 0-16383
m1 10.0.0.2:6379@16379,redis-1.h master,fail - 0 0 2 disconnected 5-6
r0 10.0.0.3:6379@16379,redis-2.h slave,fail m0 0 0 3 disconnected
r1 10.0.0.4:6379@16379,redis-3.h slave m0 0 0 3 connected
";

#[test]
fn a_failed_node_with_slots_is_left_alone() {
    let nodes = parse_cluster_nodes(FAILING);
    assert_eq!(heal_candidates(&nodes), vec![2]);
    let c = myid_command(&nodes[2]);
    assert_eq!(c.pod, "redis-2");
    assert_eq!(c.argv.join(" "), "redis-cli cluster myid");
}

#[test]
fn a_cut_off_node_is_introduced_again() {
    let nodes = parse_cluster_nodes(FAILING);
    assert_eq!(heal_step(&nodes, 2, None), HealStep::Skip);
    assert_eq!(heal_step(&nodes, 2, Some(" \n")), HealStep::Skip);
    assert_eq!(heal_step(&nodes, 2, Some("r0\n")), HealStep::Reintroduce);
    assert!(meet_command(&nodes[2], None).is_none());
    assert!(!acted(&HealStep::Skip, true));
    assert!(acted(&HealStep::Reintroduce, true));
    assert!(!acted(&HealStep::Reintroduce, false));
    let c = meet_command(&nodes[2], Some("10.9.9.9")).unwrap();
    assert_eq!(c.pod, "redis-2");
    assert_eq!(c.argv.join(" "), "redis-cli cluster meet 10.9.9.9 6379");
}

#[test]
fn a_lost_identity_is_forgotten_and_the_pod_cleared() {
    let nodes = parse_cluster_nodes(FAILING);
    assert!(acted(&heal_step(&nodes, 2, Some("fresh\n")), false));
    match heal_step(&nodes, 2, Some("fresh\n")) {
        HealStep::Forget { attempts, clearing } => {
            let pods: Vec<&str> = attempts.iter().map(|c| c.pod.as_str()).collect();
            assert_eq!(pods, ["redis-0", "redis-3"]);
            assert_eq!(attempts[0].argv.join(" "), "redis-cli cluster forget r0");
            assert_eq!(clearing.len(), 2);
            assert_eq!(clearing[0].argv.join(" "), "redis-cli flushall");
            assert_eq!(clearing[1].argv.join(" "), "redis-cli cluster reset hard");
            assert_eq!(clearing[1].pod, "redis-2");
        }
        other => panic!("{other:?}"),
    }
    // A pod that is a member under its new id is not touched.
    match heal_step(&nodes, 2, Some("r1\n")) {
        HealStep::Forget { clearing, .. } => assert!(clearing.is_empty()),
        other => panic!("{other:?}"),
    }
}

#[test]
fn the_replication_target_is_that_of_a_replica() {
    assert_eq!(
        parse_replication_target("role:slave\r\nmaster_host:10.0.0.1\r\nmaster_port:6379\r\n"),
        Some(("10.0.0.1".into(), "6379".into()))
    );
    assert_eq!(
        parse_replication_target("role:master\r\nmaster_host:10.0.0.1\r\nmaster_port:6379\r\n"),
        None
    );
    assert_eq!(parse_replication_target("role:slave\r\nmaster_port:6379\r\n"), None);
}

#[test]
fn a_replica_of_a_stale_address_is_pointed_at_its_master_again() {
    let nodes = parse_cluster_nodes(FAILING);
    assert_eq!(repair_candidate(&nodes, 3), Some(0));
    // A master, a failed node.
    assert_eq!(repair_candidate(&nodes, 0), None);
    assert_eq!(repair_candidate(&nodes, 2), None);
    assert_eq!(
        replication_info_command(&nodes[3]).argv.join(" "),
        "redis-cli info replication"
    );
    let reply = |host: &str, port: &str| {
        format!("role:slave\nmaster_host:{host}\nmaster_port:{port}\n")
    };
    let run = |r: &str| repair_command(&nodes[3], &nodes[0], Some(r));
    assert!(run(&reply("10.0.0.1", "6379")).is_none());
    assert!(run(&reply("redis-0.h", "6379")).is_none());
    assert!(run("role:master\n").is_none());
    assert!(repair_command(&nodes[3], &nodes[0], None).is_none());
    let c = run(&reply("10.7.7.7", "6379")).unwrap();
    assert_eq!(c.pod, "redis-3");
    assert_eq!(c.argv.join(" "), "redis-cli cluster replicate m0");
    assert!(run(&reply("10.0.0.1", "6380")).is_some());
}

#[test]
fn a_cluster_budget_is_there_only_when_asked_for() {
    let mut rc = RedisCluster::new(
        "redis",
        RedisClusterSpec {
            masters: 3,
            replicas_per_master: 1,
            ..Default::default()
        },
    );
    assert!(can_plan(&rc));
    let plan = plan_cluster_pdb(&rc, "ns", OwnerReference::default());
    assert_eq!(plan.action, PdbAction::Delete);
    rc.spec.pod_disruption_budget = Some(PodDisruptionBudgetSpec {
        max_unavailable: Some(IntOrString::Int(2)),
        ..Default::default()
    });
    let plan = plan_cluster_pdb(&rc, "ns", OwnerReference::default());
    assert_eq!(plan.action, PdbAction::Keep);
    assert!(plan.verdict.is_refusal());
    rc.spec.masters = i32::MAX;
    assert!(!can_plan(&rc));
}

#[test]
fn cluster_steps_follow_each_other_to_the_end() {
    let walk = |found: Found| {
        let mut steps = vec![Step::ApplyService];
        while !matches!(steps.last().unwrap(), Step::Requeue(_)) {
            let next = next_step(*steps.last().unwrap(), found, 6);
            steps.push(next);
        }
        steps
    };
    let calm = Found {
        current: 6,
        refused: false,
        ready: 6,
    };
    assert_eq!(
        walk(calm),
        vec![
            Step::ApplyService,
            Step::ReadReplicas,
            Step::ApplySet,
            Step::SettlePdb,
            Step::ReadReady,
            Step::EnsureTopology,
            Step::Report,
            Step::Requeue(60)
        ]
    );
    assert_eq!(walk(Found { current: 9, ..calm })[2], Step::Drain);
    let refused = walk(Found {
        refused: true,
        ..calm
    });
    assert_eq!(refused[4..], [Step::ReportPhase(Phase::Degraded), Step::Requeue(60)]);
    let waiting = walk(Found { ready: 5, ..calm });
    assert_eq!(waiting[5..], [Step::ReportPhase(Phase::Pending), Step::Requeue(10)]);
    assert_eq!(Phase::Pending.as_text(), "Pending");
    assert_eq!(Phase::Degraded.as_text(), "Degraded");
}

#[test]
fn replicas_are_repaired_before_they_are_moved() {
    let walk = |seed: bool, healed: bool| {
        let mut stages = vec![Stage::FindSeed];
        while *stages.last().unwrap() != Stage::Done {
            stages.push(next_stage(*stages.last().unwrap(), seed, healed));
        }
        stages
    };
    assert_eq!(
        walk(false, false),
        vec![Stage::FindSeed, Stage::Bootstrap, Stage::Done]
    );
    assert_eq!(
        walk(true, true),
        vec![
            Stage::FindSeed,
            Stage::ReadNodes,
            Stage::Heal,
            Stage::ReadAgain,
            Stage::Grow,
            Stage::Repair,
            Stage::ReadForBalance,
            Stage::Balance,
            Stage::Done
        ]
    );
    assert!(!walk(true, false).contains(&Stage::ReadAgain));
}
