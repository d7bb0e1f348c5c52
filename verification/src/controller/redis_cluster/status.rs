//! What is reported of a cluster.

use vstd::prelude::*;

use super::census;
use super::table;
use super::table::{ClusterInfo, ClusterNode, NodeView};
use crate::crd::redis_cluster::{NodeStatus, RedisClusterStatus};
use crate::order;
use crate::text;

verus! {

/// The slots of a cluster.
pub const TOTAL_SLOTS: i32 = 16384;

#[verifier::ext_equal]
pub ghost struct NodeStatusView {
    pub id: Seq<char>,
    pub hostname: Seq<char>,
    pub role: Seq<char>,
    pub master_id: Seq<char>,
    pub slot_count: int,
    pub replica_count: int,
}

impl View for NodeStatus {
    type V = NodeStatusView;

    open spec fn view(&self) -> NodeStatusView {
        NodeStatusView {
            id: self.id@,
            hostname: self.hostname@,
            role: self.role@,
            master_id: self.master_id@,
            slot_count: self.slot_count as int,
            replica_count: self.replica_count as int,
        }
    }
}

/// What is reported of the nodes `v`.
pub open spec fn statuses_view(v: Seq<NodeStatus>) -> Seq<NodeStatusView> {
    v.map_values(|n: NodeStatus| n@)
}

/// What is reported of the node `n` of a table.
pub open spec fn status_of(n: NodeView, nodes: Seq<NodeView>) -> NodeStatusView {
    NodeStatusView {
        id: n.id,
        hostname: n.hostname,
        role: if n.is_master() {
            "master"@
        } else {
            "replica"@
        },
        master_id: match n.master_id {
            Some(m) => if n.is_master() {
                Seq::empty()
            } else {
                m
            },
            None => Seq::empty(),
        },
        slot_count: if n.is_master() {
            table::slot_sum(n.slots)
        } else {
            0
        },
        replica_count: if n.is_master() {
            census::replica_count(nodes, n.id)
        } else {
            0
        },
    }
}

/// The host names by which nodes are sorted.
pub open spec fn host_keys(nodes: Seq<NodeView>) -> Seq<Seq<Seq<char>>> {
    nodes.map_values(|n: NodeView| seq![n.hostname])
}

/// What is reported of the nodes of a table, in the order `perm`.
pub open spec fn arranged(nodes: Seq<NodeView>, perm: Seq<usize>) -> Seq<NodeStatusView> {
    perm.map_values(|i: usize| status_of(nodes[i as int], nodes))
}

/// The phase of a cluster in the state `state` whose masters own `slots` slots.
pub open spec fn phase_of(state: Seq<char>, slots: int, imbalance: int) -> Seq<char> {
    if state == "ok"@ && slots == TOTAL_SLOTS && imbalance == 0 {
        "Running"@
    } else if state == "ok"@ {
        "Degraded"@
    } else {
        "Pending"@
    }
}

/// What is reported while no pod is a member of a cluster yet.
pub fn pending_status() -> (s: RedisClusterStatus)
    ensures
        text::opt_view(s.phase) == Some("Pending"@),
        s.ready_nodes == 0,
        s.cluster_state is None,
        s.masters == 0,
        s.replicas == 0,
        s.replica_imbalance == 0,
        s.slots_assigned == 0,
        s.nodes@.len() == 0,
{
    let mut s = RedisClusterStatus::default();
    s.phase = Some("Pending".to_string());
    s
}

/// What is reported of one node.
fn node_status(n: &ClusterNode, nodes: &Vec<ClusterNode>) -> (s: NodeStatus)
    requires
        nodes.len() <= i32::MAX,
        n@.is_master() ==> table::ranges_ok(n.slots@) && table::slot_sum(n.slots@) <= i32::MAX,
    ensures
        s@ == status_of(n@, table::nodes_view(nodes@)),
{
    proof {
        census::lemma_counts_bounded(table::nodes_view(nodes@), n.id@);
        if n@.is_master() {
            table::lemma_slot_sum_grows(n.slots@, 0);
        }
    }
    let is_master = n.is_master();
    let master_id = match &n.master_id {
        Some(m) => if is_master {
            String::new()
        } else {
            m.clone()
        },
        None => String::new(),
    };
    let s = NodeStatus {
        id: n.id.clone(),
        hostname: n.hostname.clone(),
        role: if is_master {
            "master".to_string()
        } else {
            "replica".to_string()
        },
        master_id,
        slot_count: if is_master {
            n.slot_count() as i32
        } else {
            0
        },
        replica_count: if is_master {
            census::count_replicas(nodes, &n.id) as i32
        } else {
            0
        },
    };
    assert(s@ =~= status_of(n@, table::nodes_view(nodes@)));
    s
}

/// What is reported of a formed cluster: what one of its members says of its
/// state, counts over its node table, and one entry per node in the order of
/// host names.
pub fn compute_status(
    info: ClusterInfo,
    nodes: &Vec<ClusterNode>,
    replicas_per_master: i32,
) -> (s: RedisClusterStatus)
    requires
        census::countable(table::nodes_view(nodes@), replicas_per_master as int),
    ensures
        ({
            let all = table::nodes_view(nodes@);
            let slots = census::assigned_slots(all);
            let off = census::imbalance(all, replicas_per_master as int);
            &&& s.ready_nodes == info.cluster_known_nodes
            &&& text::opt_view(s.phase) == Some(phase_of(info.cluster_state@, slots, off))
            &&& s.cluster_state == Some(info.cluster_state)
            &&& s.masters == census::master_count(all)
            &&& s.masters == all.filter(|n: NodeView| n.flags.contains("master"@)).len()
            &&& s.replicas == all.len() - census::master_count(all)
            &&& s.masters + s.replicas == all.len()
            &&& s.replica_imbalance == off
            &&& s.slots_assigned == slots
            &&& exists|perm: Seq<usize>| #[trigger]
                order::is_stable_order(host_keys(all), perm) && statuses_view(s.nodes@) == arranged(
                    all,
                    perm,
                )
        }),
{
    let ghost all = table::nodes_view(nodes@);
    let n: usize = nodes.len();
    proof {
        census::lemma_counts_bounded(all, Seq::empty());
        census::lemma_masters_counted(all);
    }
    let masters: usize = census::count_masters(nodes);
    let slots: i32 = census::count_slots(nodes);
    let off: i32 = census::replica_imbalance(nodes, replicas_per_master);
    let mut keys: Vec<Vec<&str>> = Vec::new();
    let mut i: usize = 0;
    while i < n
        invariant
            n == nodes.len(),
            i <= n,
            all == table::nodes_view(nodes@),
            order::key_views(keys@) == host_keys(all).take(i as int),
        decreases n - i,
    {
        let ghost before = keys@;
        let key: Vec<&str> = vec![nodes[i].hostname.as_str()];
        assert(text::views(key@) =~= seq![all[i as int].hostname]);
        keys.push(key);
        assert(order::key_views(keys@) =~= order::key_views(before).push(text::views(key@)));
        assert(order::key_views(keys@) =~= host_keys(all).take(i + 1));
        i = i + 1;
    }
    assert(host_keys(all).take(n as int) =~= host_keys(all));
    let perm = order::stable_order(&keys);
    let mut out: Vec<NodeStatus> = Vec::new();
    let mut j: usize = 0;
    while j < n
        invariant
            n == nodes.len() <= i32::MAX,
            n == perm.len(),
            j <= n,
            all == table::nodes_view(nodes@),
            census::masters_countable(all),
            census::assigned_slots(all) <= i32::MAX,
            forall|a: int| 0 <= a < perm.len() ==> 0 <= #[trigger] perm[a] < n,
            statuses_view(out@) == arranged(all, perm@).take(j as int),
        decreases n - j,
    {
        let ghost before = out@;
        let k: usize = perm[j];
        assert(all[k as int] == nodes[k as int]@);
        proof {
            census::lemma_slots_of_one(all, k as int);
        }
        let s = node_status(&nodes[k], nodes);
        out.push(s);
        assert(statuses_view(out@) =~= statuses_view(before).push(s@));
        assert(statuses_view(out@) =~= arranged(all, perm@).take(j + 1));
        j = j + 1;
    }
    assert(statuses_view(out@) =~= arranged(all, perm@));
    let ok = text::same(&info.cluster_state, "ok");
    let phase = if ok && slots == TOTAL_SLOTS && off == 0 {
        "Running"
    } else if ok {
        "Degraded"
    } else {
        "Pending"
    };
    RedisClusterStatus {
        ready_nodes: info.cluster_known_nodes,
        phase: Some(phase.to_string()),
        cluster_state: Some(info.cluster_state),
        masters: masters as i32,
        replicas: (n - masters) as i32,
        replica_imbalance: off,
        slots_assigned: slots,
        nodes: out,
    }
}

/// Nodes are reported in the order of their host names.
pub proof fn lemma_reported_in_host_order(nodes: Seq<NodeView>, perm: Seq<usize>, a: int, b: int)
    requires
        order::is_stable_order(host_keys(nodes), perm),
        0 <= a < b < perm.len(),
    ensures
        !order::less(arranged(nodes, perm)[b].hostname, arranged(nodes, perm)[a].hostname),
{
    let keys = host_keys(nodes);
    let x = perm[a] as int;
    let y = perm[b] as int;
    assert(order::comes_first(keys, x, y));
    let hx = nodes[x].hostname;
    let hy = nodes[y].hostname;
    assert(keys[x] == seq![hx] && keys[y] == seq![hy]);
    if order::less(hy, hx) {
        if order::list_less(seq![hx], seq![hy]) {
            if hx != hy {
                assert(order::less(hx, hy));
                order::lemma_less_transitive(hx, hy, hx);
                order::lemma_less_irreflexive(hx);
            } else {
                order::lemma_less_irreflexive(hx);
            }
        } else {
            assert(seq![hx][0] == seq![hy][0]);
            order::lemma_less_irreflexive(hx);
        }
    }
}

/// A cluster is reported as running only when it is ok, every slot has a master
/// and every master has its replicas.
pub proof fn lemma_running(state: Seq<char>, nodes: Seq<NodeView>, wanted: int)
    ensures
        phase_of(state, census::assigned_slots(nodes), census::imbalance(nodes, wanted))
            == "Running"@ <==> {
            &&& state == "ok"@
            &&& census::assigned_slots(nodes) == TOTAL_SLOTS
            &&& forall|id: Seq<char>| #[trigger]
                census::is_tracked(nodes, id) ==> census::replica_count(nodes, id) == wanted
        },
{
    census::lemma_no_imbalance(nodes, wanted);
    reveal_strlit("Running");
    reveal_strlit("Degraded");
    reveal_strlit("Pending");
    assert("Running"@[0] == 'R' && "Degraded"@[0] == 'D' && "Pending"@[0] == 'P');
}

/// A cluster that is not ok is pending. One that is ok runs where its masters own
/// all 16384 slots and every master, listed or only replicated, has exactly the
/// wanted replicas, and is degraded otherwise.
pub proof fn lemma_phase_is(state: Seq<char>, nodes: Seq<NodeView>, wanted: int)
    ensures
        ({
            let slots = nodes.filter(|n: NodeView| n.flags.contains("master"@)).fold_left(
                0int,
                |sum: int, n: NodeView|
                    sum + n.slots.fold_left(0int, |c: int, r: (u16, u16)| c + (r.1 - r.0 + 1)),
            );
            let even = forall|j: int|
                0 <= j < nodes.len() ==> ((#[trigger] nodes[j]).flags.contains("master"@)
                    ==> nodes.filter(|n: NodeView| n.master_id == Some(nodes[j].id)).len()
                    == wanted) && (nodes[j].master_id is Some ==> nodes.filter(
                    |n: NodeView| n.master_id == nodes[j].master_id,
                ).len() == wanted);
            phase_of(state, census::assigned_slots(nodes), census::imbalance(nodes, wanted)) == (
            if state != "ok"@ {
                "Pending"@
            } else if slots == 16384 && even {
                "Running"@
            } else {
                "Degraded"@
            })
        }),
{
    census::lemma_slots_counted(nodes);
    census::lemma_no_imbalance(nodes, wanted);
    let even = forall|j: int|
        0 <= j < nodes.len() ==> ((#[trigger] nodes[j]).flags.contains("master"@) ==> nodes.filter(
            |n: NodeView| n.master_id == Some(nodes[j].id),
        ).len() == wanted) && (nodes[j].master_id is Some ==> nodes.filter(
            |n: NodeView| n.master_id == nodes[j].master_id,
        ).len() == wanted);
    if census::imbalance(nodes, wanted) == 0 {
        assert forall|j: int| 0 <= j < nodes.len() implies ((#[trigger] nodes[j]).flags.contains(
            "master"@,
        ) ==> nodes.filter(|n: NodeView| n.master_id == Some(nodes[j].id)).len() == wanted) && (
        nodes[j].master_id is Some ==> nodes.filter(
            |n: NodeView| n.master_id == nodes[j].master_id,
        ).len() == wanted) by {
            assert(nodes[j].is_master() == nodes[j].flags.contains("master"@));
            if nodes[j].is_master() {
                census::lemma_replicas_counted(nodes, nodes[j].id);
                assert(census::is_tracked(nodes, nodes[j].id));
            }
            if let Some(id) = nodes[j].master_id {
                census::lemma_replicas_counted(nodes, id);
                lemma_same_filter(nodes, nodes[j].master_id, id);
                assert(census::is_tracked(nodes, id));
            }
        }
    } else if even {
        let id = choose|id: Seq<char>| #[trigger]
            census::is_tracked(nodes, id) && census::replica_count(nodes, id) != wanted;
        let i = choose|i: int|
            0 <= i < nodes.len() && (((#[trigger] nodes[i]).is_master() && nodes[i].id == id)
                || nodes[i].master_id == Some(id));
        assert(nodes[i].is_master() == nodes[i].flags.contains("master"@));
        census::lemma_replicas_counted(nodes, id);
        lemma_same_filter(nodes, nodes[i].master_id, id);
    }
}

proof fn lemma_same_filter(nodes: Seq<NodeView>, o: Option<Seq<char>>, id: Seq<char>)
    ensures
        o == Some(id) ==> nodes.filter(|n: NodeView| n.master_id == o).len() == nodes.filter(
            |n: NodeView| n.master_id == Some(id),
        ).len(),
    decreases nodes.len(),
{
    reveal(Seq::filter);
    if nodes.len() > 0 {
        lemma_same_filter(nodes.drop_last(), o, id);
    }
}

/// What is reported of a node: its role by the flag `master`; of a master its slots
/// and how many nodes name it as theirs, of a replica its master.
pub proof fn lemma_node_reported(n: NodeView, nodes: Seq<NodeView>)
    ensures
        ({
            let s = status_of(n, nodes);
            let master = n.flags.contains("master"@);
            &&& s.id == n.id && s.hostname == n.hostname
            &&& master ==> {
                &&& s.role == "master"@
                &&& s.master_id.len() == 0
                &&& s.slot_count == n.slots.fold_left(
                    0int,
                    |c: int, r: (u16, u16)| c + (r.1 - r.0 + 1),
                )
                &&& s.replica_count == nodes.filter(
                    |m: NodeView| m.master_id == Some(n.id),
                ).len()
            }
            &&& !master ==> {
                &&& s.role == "replica"@
                &&& n.master_id matches Some(m) ==> s.master_id == m
                &&& n.master_id is None ==> s.master_id.len() == 0
                &&& s.slot_count == 0
                &&& s.replica_count == 0
            }
        }),
{
    table::lemma_slots_summed(n.slots);
    census::lemma_replicas_counted(nodes, n.id);
}

/// The nodes are reported each once, in the order of their host names, and in the
/// order of the table where two have the same.
pub proof fn lemma_reported_once(nodes: Seq<NodeView>, perm: Seq<usize>, a: int, b: int)
    requires
        order::is_stable_order(host_keys(nodes), perm),
        0 <= a < b < perm.len(),
    ensures
        perm.len() == nodes.len(),
        0 <= perm[a] < nodes.len(),
        perm[a] != perm[b],
        ({
            let x = nodes[perm[a] as int].hostname;
            let y = nodes[perm[b] as int].hostname;
            order::less(x, y) || (x == y && perm[a] < perm[b])
        }),
{
    let keys = host_keys(nodes);
    let x = keys[perm[a] as int];
    let y = keys[perm[b] as int];
    assert(order::comes_first(keys, perm[a] as int, perm[b] as int));
    order::lemma_list_less_irreflexive(x);
    reveal_with_fuel(order::list_less, 3);
    assert(x[0] == nodes[perm[a] as int].hostname && y[0] == nodes[perm[b] as int].hostname);
    if order::list_less(x, y) && x[0] == y[0] {
        assert(x.skip(1).len() == 0 && y.skip(1).len() == 0);
    }
}

} // verus!
