//! Bringing nodes back that the cluster holds for failed, and replicas that
//! replicate from a stale address.

use vstd::prelude::*;

use super::balance;
use super::command;
use super::command::{Command, CommandView};
use super::table;
use super::table::{ClusterNode, NodeView};
use crate::text;

verus! {

/// Whether a failed node can be seen to: one that still owns slots cannot, for
/// forgetting it would orphan them.
pub open spec fn is_healable(n: NodeView) -> bool {
    n.is_failed() && table::slot_sum(n.slots) <= 0
}

/// The first `k` indices of healable nodes.
pub open spec fn healable(nodes: Seq<NodeView>, k: nat) -> Seq<int>
    decreases k,
{
    if k == 0 {
        Seq::empty()
    } else if is_healable(nodes[k - 1]) {
        healable(nodes, (k - 1) as nat).push(k - 1)
    } else {
        healable(nodes, (k - 1) as nat)
    }
}

/// What a list of indices holds.
pub open spec fn indices(v: Seq<usize>) -> Seq<int> {
    v.map_values(|i: usize| i as int)
}

/// Whether the slots of every failed node can be counted.
pub open spec fn failed_countable(nodes: Seq<NodeView>) -> bool {
    forall|i: int|
        0 <= i < nodes.len() && (#[trigger] nodes[i]).is_failed() ==> table::ranges_ok(
            nodes[i].slots,
        )
}

/// Whether the slots of every failed node can be counted.
pub fn can_heal(nodes: &Vec<ClusterNode>) -> (b: bool)
    ensures
        b == failed_countable(table::nodes_view(nodes@)),
{
    let ghost all = table::nodes_view(nodes@);
    let mut i: usize = 0;
    while i < nodes.len()
        invariant
            i <= nodes.len(),
            all == table::nodes_view(nodes@),
            forall|j: int|
                0 <= j < i && (#[trigger] all[j]).is_failed() ==> table::ranges_ok(all[j].slots),
        decreases nodes.len() - i,
    {
        assert(all[i as int] == nodes[i as int]@);
        if nodes[i].is_failed() && !nodes[i].slots_countable() {
            return false;
        }
        i = i + 1;
    }
    true
}

/// The failed nodes that can be seen to, in the order of the table.
pub fn heal_candidates(nodes: &Vec<ClusterNode>) -> (v: Vec<usize>)
    requires
        failed_countable(table::nodes_view(nodes@)),
    ensures
        indices(v@) == healable(table::nodes_view(nodes@), nodes.len() as nat),
        forall|k: int| 0 <= k < v.len() ==> #[trigger] v[k] < nodes.len(),
        forall|i: int|
            0 <= i < nodes.len() ==> (indices(v@).contains(i) <==> (#[trigger] table::nodes_view(
                nodes@,
            )[i]).flags.contains("fail"@) && nodes[i].slots@.len() == 0),
{
    let ghost all = table::nodes_view(nodes@);
    let mut v: Vec<usize> = Vec::new();
    let mut i: usize = 0;
    assert(indices(v@) =~= healable(all, 0));
    while i < nodes.len()
        invariant
            i <= nodes.len(),
            all == table::nodes_view(nodes@),
            failed_countable(all),
            indices(v@) == healable(all, i as nat),
            forall|k: int| 0 <= k < v.len() ==> #[trigger] v[k] < i,
        decreases nodes.len() - i,
    {
        assert(all[i as int] == nodes[i as int]@);
        if nodes[i].is_failed() && nodes[i].slot_count() == 0 {
            let ghost before = v@;
            v.push(i);
            assert(indices(v@) =~= indices(before).push(i as int));
        }
        i = i + 1;
    }
    proof {
        assert forall|i: int| 0 <= i < nodes.len() implies (indices(v@).contains(i) <==> (
        #[trigger] table::nodes_view(nodes@)[i]).flags.contains("fail"@) && nodes[i].slots@.len()
            == 0) by {
            assert(all[i] == nodes[i]@);
            lemma_healable(all, all.len());
            if all[i].is_failed() {
                lemma_no_slots(all[i].slots);
            }
        }
    }
    v
}

/// A failed node that is seen to owns no slots, and every failed node without
/// slots is.
pub proof fn lemma_healable(nodes: Seq<NodeView>, k: nat)
    requires
        k <= nodes.len(),
    ensures
        forall|i: int| #[trigger]
            healable(nodes, k).contains(i) <==> 0 <= i < k && is_healable(nodes[i]),
    decreases k,
{
    if k > 0 {
        let before = healable(nodes, (k - 1) as nat);
        lemma_healable(nodes, (k - 1) as nat);
        let h = healable(nodes, k);
        assert forall|i: int| #[trigger] h.contains(i) <==> 0 <= i < k && is_healable(nodes[i]) by {
            assert(before.contains(i) <==> 0 <= i < k - 1 && is_healable(nodes[i]));
            if h != before {
                if before.contains(i) {
                    let j = choose|j: int| 0 <= j < before.len() && before[j] == i;
                    assert(h[j] == i);
                }
                assert(h[before.len() as int] == k - 1);
                if h.contains(i) && i != k - 1 {
                    let j = choose|j: int| 0 <= j < h.len() && h[j] == i;
                    assert(before[j] == i);
                }
            }
        }
    }
}

/// The command that asks the pod behind a host name for its node id.
pub open spec fn myid(host: Seq<char>) -> CommandView {
    CommandView {
        pod: text::head(host, '.'),
        argv: seq!["redis-cli"@, "cluster"@, "myid"@],
    }
}

/// The command that asks the pod behind a node for its current id.
pub fn myid_command(node: &ClusterNode) -> (c: Command)
    ensures
        c@ == myid(node@.hostname),
{
    let argv: Vec<&str> = vec!["redis-cli", "cluster", "myid"];
    assert(text::views(argv@) =~= myid(node@.hostname).argv);
    command::command(command::pod_of(&node.hostname), &argv)
}

/// How a failed node is brought back.
#[derive(Debug, PartialEq, Eq)]
pub enum HealStep {
    /// Nothing is done for now.
    Skip,
    /// The pod kept its identity but is cut off: introduce it to the seed again.
    Reintroduce,
    /// The pod came back as another node. Its old entry is forgotten, for which
    /// it is enough to have tried; what it holds is then cleared, where it is
    /// not a member yet.
    Forget { attempts: Vec<Command>, clearing: Vec<Command> },
}

/// Whether carrying out `step` changed the topology, so that the table is to be
/// read again. To introduce a pod again changes it only where that was possible.
pub fn acted(step: &HealStep, met: bool) -> (b: bool)
    ensures
        b == (step is Forget || (step is Reintroduce && met)),
{
    match step {
        HealStep::Skip => false,
        HealStep::Reintroduce => met,
        HealStep::Forget { .. } => true,
    }
}

/// The command that makes a member forget the node `id`.
pub open spec fn forget(member: NodeView, id: Seq<char>) -> CommandView {
    CommandView {
        pod: text::head(member.hostname, '.'),
        argv: seq!["redis-cli"@, "cluster"@, "forget"@, id],
    }
}

/// The commands by which the healthy members among `nodes` forget `id`.
pub open spec fn forgetting(nodes: Seq<NodeView>, id: Seq<char>) -> Seq<CommandView>
    decreases nodes.len(),
{
    if nodes.len() == 0 {
        Seq::empty()
    } else {
        let m = nodes.last();
        let before = forgetting(nodes.drop_last(), id);
        if m.id != id && !m.is_failed() {
            before.push(forget(m, id))
        } else {
            before
        }
    }
}

/// Whether a node of the table has this id.
pub open spec fn is_known(nodes: Seq<NodeView>, id: Seq<char>) -> bool {
    exists|i: int| 0 <= i < nodes.len() && (#[trigger] nodes[i]).id == id
}

/// The commands that empty a pod, so that it can be added as a new node. A pod
/// that is a member under its new id is not touched.
pub open spec fn clearing_of(nodes: Seq<NodeView>, pod: Seq<char>, id: Seq<char>) -> Seq<
    CommandView,
> {
    if is_known(nodes, id) {
        Seq::empty()
    } else {
        seq![
            CommandView { pod, argv: seq!["redis-cli"@, "flushall"@] },
            CommandView { pod, argv: seq!["redis-cli"@, "cluster"@, "reset"@, "hard"@] },
        ]
    }
}

/// Whether `step` is what is done about the failed node `stale` whose pod
/// answered `reply` when asked for its id.
pub open spec fn is_heal_step(
    step: HealStep,
    nodes: Seq<NodeView>,
    stale: NodeView,
    reply: Option<Seq<char>>,
) -> bool {
    let id = match reply {
        Some(out) => text::trimmed(out),
        None => Seq::empty(),
    };
    match step {
        HealStep::Skip => id.len() == 0,
        HealStep::Reintroduce => id.len() > 0 && id == stale.id,
        HealStep::Forget { attempts, clearing } => {
            &&& id.len() > 0
            &&& id != stale.id
            &&& command::commands_view(attempts@) == forgetting(nodes, stale.id)
            &&& command::commands_view(clearing@) == clearing_of(
                nodes,
                text::head(stale.hostname, '.'),
                id,
            )
        },
    }
}

/// The commands by which the healthy members forget `id`.
fn forget_commands(nodes: &Vec<ClusterNode>, id: &str) -> (out: Vec<Command>)
    ensures
        command::commands_view(out@) == forgetting(table::nodes_view(nodes@), id@),
{
    let ghost all = table::nodes_view(nodes@);
    let mut out: Vec<Command> = Vec::new();
    let mut i: usize = 0;
    assert(command::commands_view(out@) =~= forgetting(all.take(0), id@));
    while i < nodes.len()
        invariant
            i <= nodes.len(),
            all == table::nodes_view(nodes@),
            command::commands_view(out@) == forgetting(all.take(i as int), id@),
        decreases nodes.len() - i,
    {
        assert(all[i as int] == nodes[i as int]@);
        assert(all.take(i + 1).drop_last() =~= all.take(i as int));
        if !text::same(&nodes[i].id, id) && !nodes[i].is_failed() {
            let argv: Vec<&str> = vec!["redis-cli", "cluster", "forget", id];
            assert(text::views(argv@) =~= forget(nodes[i as int]@, id@).argv);
            let c = command::command(command::pod_of(&nodes[i].hostname), &argv);
            proof {
                command::lemma_commands_push(out@, c);
            }
            out.push(c);
        }
        i = i + 1;
    }
    assert(all.take(i as int) =~= all);
    out
}

/// Whether a node of the table has this id.
fn knows(nodes: &Vec<ClusterNode>, id: &str) -> (b: bool)
    ensures
        b == is_known(table::nodes_view(nodes@), id@),
{
    let ghost all = table::nodes_view(nodes@);
    let mut i: usize = 0;
    while i < nodes.len()
        invariant
            i <= nodes.len(),
            all == table::nodes_view(nodes@),
            forall|j: int| 0 <= j < i ==> (#[trigger] all[j]).id != id@,
        decreases nodes.len() - i,
    {
        assert(all[i as int] == nodes[i as int]@);
        if text::same(&nodes[i].id, id) {
            return true;
        }
        i = i + 1;
    }
    false
}

/// Decides how a failed node is brought back, by the id that its pod has now.
/// The same id means that the pod is cut off: every address that it knows is
/// stale. Another one means that it lost its state, while its old entry still
/// announces its host name and so keeps it from being added again.
pub fn heal_step(nodes: &Vec<ClusterNode>, stale: usize, reply: Option<&str>) -> (step: HealStep)
    requires
        stale < nodes.len(),
    ensures
        is_heal_step(
            step,
            table::nodes_view(nodes@),
            nodes[stale as int]@,
            text::opt_str_view(reply),
        ),
{
    let out = match reply {
        Some(out) => out,
        None => {
            return HealStep::Skip;
        },
    };
    let id = text::trim(out);
    if id.is_empty() {
        return HealStep::Skip;
    }
    let node = &nodes[stale];
    if text::same(id, &node.id) {
        return HealStep::Reintroduce;
    }
    let attempts = forget_commands(nodes, &node.id);
    let mut clearing: Vec<Command> = Vec::new();
    let ghost all = table::nodes_view(nodes@);
    let ghost pod_view = text::head(node@.hostname, '.');
    if !knows(nodes, id) {
        let pod = command::pod_of(&node.hostname);
        let flush: Vec<&str> = vec!["redis-cli", "flushall"];
        let reset: Vec<&str> = vec!["redis-cli", "cluster", "reset", "hard"];
        assert(text::views(flush@) =~= seq!["redis-cli"@, "flushall"@]);
        assert(text::views(reset@) =~= seq!["redis-cli"@, "cluster"@, "reset"@, "hard"@]);
        clearing.push(command::command(pod, &flush));
        clearing.push(command::command(pod, &reset));
    }
    assert(command::commands_view(clearing@) =~= clearing_of(all, pod_view, id@));
    HealStep::Forget { attempts, clearing }
}

/// The command that introduces the pod behind a host name to the node at `ip`.
pub open spec fn meet(host: Seq<char>, ip: Seq<char>) -> CommandView {
    CommandView {
        pod: text::head(host, '.'),
        argv: seq!["redis-cli"@, "cluster"@, "meet"@, ip, "6379"@],
    }
}

/// The command that introduces a node to the seed again, at the address that the
/// seed has now. Without one there is nothing to do.
pub fn meet_command(node: &ClusterNode, seed_ip: Option<&str>) -> (r: Option<Command>)
    ensures
        match seed_ip {
            Some(ip) => r matches Some(c) && c@ == meet(node@.hostname, ip@),
            None => r is None,
        },
{
    match seed_ip {
        None => None,
        Some(ip) => {
            let argv: Vec<&str> = vec!["redis-cli", "cluster", "meet", ip, "6379"];
            assert(text::views(argv@) =~= meet(node@.hostname, ip@).argv);
            Some(command::command(command::pod_of(&node.hostname), &argv))
        },
    }
}

/// The first node with this id; the length of the table where there is none.
pub open spec fn node_index(nodes: Seq<NodeView>, id: Seq<char>) -> int
    decreases nodes.len(),
{
    if nodes.len() == 0 || nodes[0].id == id {
        0
    } else {
        1 + node_index(nodes.skip(1), id)
    }
}

/// The index of the master that the replica `n` is to be checked against, or the
/// length of the table where there is nothing to check: `n` is a master, one of
/// the two is failed, or the master is not in the table.
pub open spec fn master_to_check(nodes: Seq<NodeView>, n: NodeView) -> int {
    if n.is_master() || n.is_failed() || n.master_id is None {
        nodes.len() as int
    } else {
        let m = node_index(nodes, n.master_id->0);
        if m < nodes.len() && nodes[m].is_failed() {
            nodes.len() as int
        } else {
            m
        }
    }
}

proof fn lemma_node_index(nodes: Seq<NodeView>, id: Seq<char>, k: int)
    requires
        0 <= k <= nodes.len(),
        forall|j: int| 0 <= j < k ==> (#[trigger] nodes[j]).id != id,
        k < nodes.len() ==> nodes[k].id == id,
    ensures
        node_index(nodes, id) == k,
    decreases k,
{
    if k > 0 {
        let rest = nodes.skip(1);
        assert(nodes[0].id != id);
        assert forall|j: int| 0 <= j < k - 1 implies (#[trigger] rest[j]).id != id by {
            assert(rest[j] == nodes[j + 1]);
        }
        lemma_node_index(rest, id, k - 1);
    }
}

/// The master that a node is to be checked against, where there is one.
pub fn repair_candidate(nodes: &Vec<ClusterNode>, replica: usize) -> (master: Option<usize>)
    requires
        replica < nodes.len(),
    ensures
        ({
            let all = table::nodes_view(nodes@);
            let m = master_to_check(all, all[replica as int]);
            match master {
                Some(k) => k == m && k < nodes.len(),
                None => m == nodes.len(),
            }
        }),
{
    let ghost all = table::nodes_view(nodes@);
    let n = &nodes[replica];
    assert(all[replica as int] == nodes[replica as int]@);
    if n.is_master() || n.is_failed() {
        return None;
    }
    let id = match &n.master_id {
        Some(id) => id,
        None => {
            return None;
        },
    };
    let mut i: usize = 0;
    while i < nodes.len() && !text::same(&nodes[i].id, id)
        invariant
            i <= nodes.len(),
            all == table::nodes_view(nodes@),
            forall|j: int| 0 <= j < i ==> (#[trigger] all[j]).id != id@,
        decreases nodes.len() - i,
    {
        assert(all[i as int] == nodes[i as int]@);
        i = i + 1;
    }
    proof {
        if i < nodes.len() {
            assert(all[i as int] == nodes[i as int]@);
        }
        lemma_node_index(all, id@, i as int);
    }
    if i == nodes.len() || nodes[i].is_failed() {
        return None;
    }
    Some(i)
}

/// The command that asks the pod behind a host name for its replication state.
pub open spec fn replication_info(host: Seq<char>) -> CommandView {
    CommandView {
        pod: text::head(host, '.'),
        argv: seq!["redis-cli"@, "info"@, "replication"@],
    }
}

/// The command that asks the pod behind a node for its replication state.
pub fn replication_info_command(node: &ClusterNode) -> (c: Command)
    ensures
        c@ == replication_info(node@.hostname),
{
    let argv: Vec<&str> = vec!["redis-cli", "info", "replication"];
    assert(text::views(argv@) =~= replication_info(node@.hostname).argv);
    command::command(command::pod_of(&node.hostname), &argv)
}

/// Whether a replica whose replication state is `reply` replicates from another
/// place than its master has in the table. It may name the master by address or
/// by host name.
pub open spec fn is_stale(reply: Option<Seq<char>>, master: NodeView) -> bool {
    match reply {
        None => false,
        Some(out) => match (table::replication_target(out), text::cut(master.addr, ':')) {
            (Some((host, port)), Some((ip, master_port))) => !(port == master_port && (host == ip
                || host == master.hostname)),
            _ => false,
        },
    }
}

/// The command that points a replica at its master again, where it replicates
/// from a stale address. The node table cannot show that, so `reply` is what the
/// replica itself says.
pub fn repair_command(replica: &ClusterNode, master: &ClusterNode, reply: Option<&str>) -> (r:
    Option<Command>)
    ensures
        r is Some <==> is_stale(text::opt_str_view(reply), master@),
        r matches Some(c) ==> c@ == balance::replicate(
            text::head(replica@.hostname, '.'),
            master@.id,
        ),
{
    let out = match reply {
        Some(out) => out,
        None => {
            return None;
        },
    };
    match (table::parse_replication_target(out), text::split_once(&master.addr, ':')) {
        (Some((host, port)), Some((ip, master_port))) => {
            if text::same(&port, master_port) && (text::same(&host, ip) || text::same(
                &host,
                &master.hostname,
            )) {
                None
            } else {
                Some(balance::replicate_command(command::pod_of(&replica.hostname), &master.id))
            }
        },
        _ => None,
    }
}

/// A node is seen to exactly where it is flagged as failed and owns no slots,
/// whatever else it is flagged as.
pub proof fn lemma_heals_slotless(nodes: Seq<NodeView>, i: int)
    requires
        0 <= i < nodes.len(),
        forall|k: int|
            0 <= k < nodes[i].slots.len() ==> (#[trigger] nodes[i].slots[k]).0 <= nodes[i].slots[k].1,
    ensures
        healable(nodes, nodes.len()).contains(i) <==> nodes[i].flags.contains("fail"@)
            && nodes[i].slots.len() == 0,
        nodes[i].slots.len() == 0 <==> nodes[i].slots.fold_left(
            0int,
            |s: int, p: (u16, u16)| s + (p.1 - p.0 + 1),
        ) == 0,
{
    lemma_healable(nodes, nodes.len());
    lemma_no_slots(nodes[i].slots);
    table::lemma_slots_summed(nodes[i].slots);
}

/// Ranges that are no shorter than one slot hold none only where there are none.
proof fn lemma_no_slots(ranges: Seq<(u16, u16)>)
    requires
        forall|k: int| 0 <= k < ranges.len() ==> (#[trigger] ranges[k]).0 <= ranges[k].1,
    ensures
        table::slot_sum(ranges) >= ranges.len(),
        ranges.len() == 0 ==> table::slot_sum(ranges) == 0,
    decreases ranges.len(),
{
    if ranges.len() > 0 {
        let l = ranges.len() - 1;
        assert(ranges[l].0 <= ranges[l].1);
        assert forall|k: int| 0 <= k < ranges.drop_last().len() implies (
        #[trigger] ranges.drop_last()[k]).0 <= ranges.drop_last()[k].1 by {
            assert(ranges.drop_last()[k] == ranges[k]);
        }
        lemma_no_slots(ranges.drop_last());
    }
}

/// What is done about a failed node goes by the id that its pod answers with, white
/// space aside: nothing without one, the pod is introduced again under its own, and
/// under another its entry is forgotten. Every other node that is not failed is told
/// to forget it, in the order of the table. The pod is then emptied and reset,
/// unless the id that it answers with is one of the table's.
pub proof fn lemma_heals_by_identity(
    step: HealStep,
    nodes: Seq<NodeView>,
    stale: NodeView,
    reply: Option<Seq<char>>,
)
    requires
        is_heal_step(step, nodes, stale, reply),
    ensures
        step is Skip <==> (reply is None || text::trimmed(reply->0).len() == 0),
        step is Reintroduce <==> (reply is Some && text::trimmed(reply->0).len() > 0
            && text::trimmed(reply->0) == stale.id),
        step matches HealStep::Forget { attempts, clearing } ==> {
            let told = nodes.filter(
                |n: NodeView| n.id != stale.id && !n.flags.contains("fail"@),
            );
            let known = exists|k: int|
                0 <= k < nodes.len() && (#[trigger] nodes[k]).id == text::trimmed(reply->0);
            let pod = text::head(stale.hostname, '.');
            &&& attempts@.len() == told.len()
            &&& forall|i: int|
                0 <= i < told.len() ==> (#[trigger] attempts@[i])@.pod == text::head(
                    told[i].hostname,
                    '.',
                ) && attempts@[i]@.argv == seq!["redis-cli"@, "cluster"@, "forget"@, stale.id]
            &&& known ==> clearing@.len() == 0
            &&& !known ==> {
                &&& clearing@.len() == 2
                &&& clearing@[0]@.pod == pod
                &&& clearing@[0]@.argv == seq!["redis-cli"@, "flushall"@]
                &&& clearing@[1]@.pod == pod
                &&& clearing@[1]@.argv == seq!["redis-cli"@, "cluster"@, "reset"@, "hard"@]
            }
        },
{
    if let HealStep::Forget { attempts, clearing } = step {
        let told = nodes.filter(|n: NodeView| n.id != stale.id && !n.flags.contains("fail"@));
        lemma_told(nodes, stale.id);
        let a = command::commands_view(attempts@);
        assert forall|i: int| 0 <= i < told.len() implies (#[trigger] attempts@[i])@.pod
            == text::head(told[i].hostname, '.') && attempts@[i]@.argv == seq![
            "redis-cli"@,
            "cluster"@,
            "forget"@,
            stale.id,
        ] by {
            assert(a[i] == attempts@[i]@);
            assert(a[i] == forget(told[i], stale.id));
        }
        let c = command::commands_view(clearing@);
        assert(c.len() == clearing@.len());
        assert(is_known(nodes, text::trimmed(reply->0)) <==> exists|k: int|
            0 <= k < nodes.len() && (#[trigger] nodes[k]).id == text::trimmed(reply->0));
        if !is_known(nodes, text::trimmed(reply->0)) {
            assert(c[0] == clearing@[0]@ && c[1] == clearing@[1]@);
        }
    }
}

proof fn lemma_told(nodes: Seq<NodeView>, id: Seq<char>)
    ensures
        ({
            let told = nodes.filter(|n: NodeView| n.id != id && !n.flags.contains("fail"@));
            &&& forgetting(nodes, id).len() == told.len()
            &&& forall|i: int|
                0 <= i < told.len() ==> #[trigger] forgetting(nodes, id)[i] == forget(told[i], id)
        }),
    decreases nodes.len(),
{
    reveal(Seq::filter);
    if nodes.len() > 0 {
        let rest = nodes.drop_last();
        lemma_told(rest, id);
        let told = nodes.filter(|n: NodeView| n.id != id && !n.flags.contains("fail"@));
        let told0 = rest.filter(|n: NodeView| n.id != id && !n.flags.contains("fail"@));
        assert forall|i: int| 0 <= i < told.len() implies #[trigger] forgetting(nodes, id)[i]
            == forget(told[i], id) by {
            if i < told0.len() {
                assert(forgetting(nodes, id)[i] == forgetting(rest, id)[i]);
                assert(told[i] == told0[i]);
            }
        }
    }
}

/// A replica is checked against the first node with the id of its master, and only
/// where neither of the two is failed.
pub proof fn lemma_checked_against_master(nodes: Seq<NodeView>, r: int)
    requires
        0 <= r < nodes.len(),
    ensures
        ({
            let m = master_to_check(nodes, nodes[r]);
            &&& 0 <= m <= nodes.len()
            &&& m < nodes.len() ==> {
                &&& !nodes[r].flags.contains("master"@)
                &&& !nodes[r].flags.contains("fail"@)
                &&& nodes[r].master_id == Some(nodes[m].id)
                &&& !nodes[m].flags.contains("fail"@)
                &&& forall|j: int| 0 <= j < m ==> (#[trigger] nodes[j]).id != nodes[m].id
            }
            &&& m == nodes.len() ==> {
                ||| nodes[r].flags.contains("master"@)
                ||| nodes[r].flags.contains("fail"@)
                ||| nodes[r].master_id is None
                ||| forall|j: int|
                    0 <= j < nodes.len() ==> Some((#[trigger] nodes[j]).id) != nodes[r].master_id
                        || nodes[j].flags.contains("fail"@) || exists|i: int|
                        0 <= i < j && (#[trigger] nodes[i]).id == nodes[j].id
            }
        }),
{
    if let Some(id) = nodes[r].master_id {
        lemma_node_index_is(nodes, id);
    }
}

proof fn lemma_node_index_is(nodes: Seq<NodeView>, id: Seq<char>)
    ensures
        0 <= node_index(nodes, id) <= nodes.len(),
        node_index(nodes, id) < nodes.len() ==> nodes[node_index(nodes, id)].id == id,
        forall|j: int| 0 <= j < node_index(nodes, id) ==> (#[trigger] nodes[j]).id != id,
    decreases nodes.len(),
{
    if nodes.len() > 0 && nodes[0].id != id {
        let rest = nodes.skip(1);
        lemma_node_index_is(rest, id);
        assert forall|j: int| 0 <= j < node_index(nodes, id) implies (#[trigger] nodes[j]).id
            != id by {
            if j > 0 {
                assert(rest[j - 1] == nodes[j]);
            }
        }
    }
}

/// A replica is pointed at its master again exactly where it says that it
/// replicates from another port, or from a host that is neither the address of its
/// master nor its host name.
pub proof fn lemma_stale_is_elsewhere(
    out: Seq<char>,
    master: NodeView,
    ip: Seq<char>,
    port: Seq<char>,
)
    requires
        !ip.contains(':'),
        master.addr == ip + seq![':'] + port,
    ensures
        is_stale(Some(out), master) <==> match table::replication_target(out) {
            Some((h, p)) => p != port || (h != ip && h != master.hostname),
            None => false,
        },
        !is_stale(None, master),
{
    let s = master.addr;
    assert forall|j: int| 0 <= j < ip.len() implies s[j] != ':' by {
        assert(s[j] == ip[j]);
        assert(ip.contains(ip[j]));
    }
    text::lemma_first_index_is(s, ':', ip.len() as int);
    assert(s.take(ip.len() as int) =~= ip);
    assert(s.skip(ip.len() as int + 1) =~= port);
}

/// What is asked or told of a host is asked or told in the pod of that host: for its
/// id, to meet the seed, and for its replication state.
pub proof fn lemma_asked_in_pod(pod: Seq<char>, svc: Seq<char>, ns: Seq<char>, ip: Seq<char>)
    requires
        !pod.contains('.'),
    ensures
        ({
            let host = pod + "."@ + svc + "."@ + ns + ".svc.cluster.local"@;
            &&& myid(host).pod == pod
            &&& myid(host).argv == seq!["redis-cli"@, "cluster"@, "myid"@]
            &&& meet(host, ip).pod == pod
            &&& meet(host, ip).argv == seq!["redis-cli"@, "cluster"@, "meet"@, ip, "6379"@]
            &&& replication_info(host).pod == pod
            &&& replication_info(host).argv == seq!["redis-cli"@, "info"@, "replication"@]
        }),
{
    command::lemma_pod_of_host(pod, svc, ns);
}

/// A table whose ranges end no earlier than they begin, and are fewer than there are
/// slots at all, can be healed by.
pub proof fn lemma_tables_heal(nodes: Seq<NodeView>)
    requires
        forall|i: int, j: int|
            0 <= i < nodes.len() && 0 <= j < nodes[i].slots.len() ==> (
            #[trigger] nodes[i].slots[j]).0 <= nodes[i].slots[j].1,
        forall|i: int| 0 <= i < nodes.len() ==> (#[trigger] nodes[i]).slots.len() <= u16::MAX,
    ensures
        failed_countable(nodes),
{
    assert forall|i: int| 0 <= i < nodes.len() && (#[trigger] nodes[i]).is_failed()
        implies table::ranges_ok(nodes[i].slots) by {
        table::lemma_ranges_countable(nodes[i].slots);
    }
}

} // verus!
