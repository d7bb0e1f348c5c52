//! Taking pods out of a cluster before their set shrinks.

use vstd::prelude::*;

use super::command;
use super::command::{Command, CommandView};
use super::grow;
use super::table;
use super::table::{ClusterNode, NodeView};
use crate::error::Error;
use crate::number;
use crate::text;

verus! {

/// Whether `host` is that of a pod with an ordinal from `new_total` up to, but
/// not including, `old_total`.
pub open spec fn is_removed(
    host: Seq<char>,
    sts: Seq<char>,
    ns: Seq<char>,
    new_total: int,
    old_total: int,
) -> bool {
    exists|i: int| new_total <= i < old_total && host == #[trigger] command::host_name(sts, ns, i)
}

/// What a drain goes by.
pub ghost struct Drain {
    pub sts: Seq<char>,
    pub ns: Seq<char>,
    pub seed_pod: Seq<char>,
    pub new_total: int,
    pub old_total: int,
}

impl Drain {
    pub open spec fn removes(self, n: NodeView) -> bool {
        is_removed(n.hostname, self.sts, self.ns, self.new_total, self.old_total)
    }

    /// Whether `n` is a master that stays.
    pub open spec fn survives(self, n: NodeView) -> bool {
        n.is_master() && !self.removes(n)
    }

    /// Whether the slots of every master that goes can be counted; none are where
    /// no master stays.
    pub open spec fn is_countable(self, nodes: Seq<NodeView>) -> bool {
        self.survivor(nodes) < nodes.len() ==> forall|i: int|
            0 <= i < nodes.len() && self.removes(#[trigger] nodes[i]) && nodes[i].is_master()
                ==> table::ranges_ok(nodes[i].slots)
    }

    pub open spec fn seed(self) -> Seq<char> {
        command::endpoint(command::host_of(self.seed_pod, self.sts, self.ns))
    }

    /// The command that takes the node `id` out of the cluster.
    pub open spec fn del_node(self, id: Seq<char>) -> CommandView {
        CommandView {
            pod: self.seed_pod,
            argv: seq!["redis-cli"@, "--cluster"@, "del-node"@, self.seed(), id],
        }
    }

    /// The command that moves `slots` slots from one master to another.
    pub open spec fn reshard(self, from: Seq<char>, to: Seq<char>, slots: int) -> CommandView {
        CommandView {
            pod: self.seed_pod,
            argv: seq![
                "redis-cli"@,
                "--cluster"@,
                "reshard"@,
                self.seed(),
                "--cluster-from"@,
                from,
                "--cluster-to"@,
                to,
                "--cluster-slots"@,
                number::written(slots),
                "--cluster-yes"@,
            ],
        }
    }

    /// The commands that take out the replicas that go.
    pub open spec fn replica_commands(self, nodes: Seq<NodeView>) -> Seq<CommandView>
        decreases nodes.len(),
    {
        if nodes.len() == 0 {
            Seq::empty()
        } else {
            let n = nodes.last();
            let before = self.replica_commands(nodes.drop_last());
            if self.removes(n) && !n.is_master() {
                before.push(self.del_node(n.id))
            } else {
                before
            }
        }
    }

    /// The commands that take out one master that goes: its slots first, where
    /// it has any.
    pub open spec fn master_command(self, n: NodeView, to: Seq<char>) -> Seq<CommandView> {
        let slots = table::slot_sum(n.slots);
        if slots > 0 {
            seq![self.reshard(n.id, to, slots), self.del_node(n.id)]
        } else {
            seq![self.del_node(n.id)]
        }
    }

    /// The commands that take out the masters that go, their slots to `to`.
    pub open spec fn master_commands(self, nodes: Seq<NodeView>, to: Seq<char>) -> Seq<CommandView>
        decreases nodes.len(),
    {
        if nodes.len() == 0 {
            Seq::empty()
        } else {
            let n = nodes.last();
            let before = self.master_commands(nodes.drop_last(), to);
            if self.removes(n) && n.is_master() {
                before + self.master_command(n, to)
            } else {
                before
            }
        }
    }

    /// Whether a master that goes owns slots.
    pub open spec fn migrates(self, nodes: Seq<NodeView>) -> bool {
        exists|i: int|
            0 <= i < nodes.len() && self.removes(#[trigger] nodes[i]) && nodes[i].is_master()
                && table::slot_sum(nodes[i].slots) > 0
    }

    /// The first master that stays; the length of the table where none does.
    pub open spec fn survivor(self, nodes: Seq<NodeView>) -> int
        decreases nodes.len(),
    {
        if nodes.len() == 0 || self.survives(nodes[0]) {
            0
        } else {
            1 + self.survivor(nodes.skip(1))
        }
    }

    /// The whole drain: replicas, then masters with their slots, and then the
    /// slots are spread anew where any moved.
    pub open spec fn all_commands(self, nodes: Seq<NodeView>) -> Seq<CommandView> {
        let removals = self.replica_commands(nodes) + self.master_commands(
            nodes,
            nodes[self.survivor(nodes)].id,
        );
        if self.migrates(nodes) {
            removals.push(grow::rebalance(self.seed_pod, self.seed()))
        } else {
            removals
        }
    }
}

proof fn lemma_survivor(d: Drain, nodes: Seq<NodeView>, k: int)
    requires
        0 <= k <= nodes.len(),
        forall|j: int| 0 <= j < k ==> !d.survives(#[trigger] nodes[j]),
        k < nodes.len() ==> d.survives(nodes[k]),
    ensures
        d.survivor(nodes) == k,
    decreases k,
{
    if k > 0 {
        let rest = nodes.skip(1);
        assert(!d.survives(nodes[0]));
        assert forall|j: int| 0 <= j < k - 1 implies !d.survives(#[trigger] rest[j]) by {
            assert(rest[j] == nodes[j + 1]);
        }
        lemma_survivor(d, rest, k - 1);
    }
}

/// Whether `host` is that of a pod that goes.
fn goes(host: &str, sts_name: &str, ns: &str, new_total: i32, old_total: i32) -> (b: bool)
    ensures
        b == is_removed(host@, sts_name@, ns@, new_total as int, old_total as int),
{
    let mut i: i32 = new_total;
    while i < old_total
        invariant
            new_total <= i,
            i <= old_total || i == new_total,
            forall|j: int|
                new_total <= j < i ==> host@ != #[trigger] command::host_name(sts_name@, ns@, j),
        decreases old_total - i,
    {
        if text::same(host, &command::pod_hostname(sts_name, ns, i)) {
            return true;
        }
        i = i + 1;
    }
    false
}

/// The command that takes the node `id` out of the cluster.
fn del_node_command(seed_pod: &str, seed: &str, id: &str, Ghost(d): Ghost<Drain>) -> (c: Command)
    requires
        d.seed_pod == seed_pod@,
        d.seed() == seed@,
    ensures
        c@ == d.del_node(id@),
{
    let argv: Vec<&str> = vec!["redis-cli", "--cluster", "del-node", seed, id];
    assert(text::views(argv@) =~= d.del_node(id@).argv);
    command::command(seed_pod, &argv)
}

/// Which of the nodes go, and the first master that stays; the length of the table
/// where none does.
fn survey(
    nodes: &Vec<ClusterNode>,
    sts_name: &str,
    ns: &str,
    new_total: i32,
    old_total: i32,
) -> (r: (Vec<bool>, usize))
    ensures
        ({
            let all = table::nodes_view(nodes@);
            let (gone, survivor) = r;
            &&& gone.len() == nodes.len()
            &&& survivor <= nodes.len()
            &&& forall|j: int|
                0 <= j < all.len() ==> gone[j] == is_removed(
                    (#[trigger] all[j]).hostname,
                    sts_name@,
                    ns@,
                    new_total as int,
                    old_total as int,
                )
            &&& survivor < nodes.len() ==> all[survivor as int].is_master()
                && !gone[survivor as int]
            &&& forall|j: int|
                0 <= j < survivor ==> gone[j] || !(#[trigger] all[j]).is_master()
        }),
{
    let ghost all = table::nodes_view(nodes@);
    let n: usize = nodes.len();
    let mut gone: Vec<bool> = Vec::new();
    let mut survivor: usize = n;
    let mut i: usize = 0;
    while i < n
        invariant
            n == nodes.len(),
            i <= n,
            all == table::nodes_view(nodes@),
            gone.len() == i,
            forall|j: int|
                0 <= j < i ==> gone[j] == is_removed(
                    (#[trigger] all[j]).hostname,
                    sts_name@,
                    ns@,
                    new_total as int,
                    old_total as int,
                ),
            survivor == n || survivor < i && all[survivor as int].is_master()
                && !gone[survivor as int],
            forall|j: int|
                0 <= j < i && (survivor == n || j < survivor) ==> gone[j] || !(
                #[trigger] all[j]).is_master(),
        decreases n - i,
    {
        assert(all[i as int] == nodes[i as int]@);
        let g = goes(&nodes[i].hostname, sts_name, ns, new_total, old_total);
        gone.push(g);
        if survivor == n && !g && nodes[i].is_master() {
            survivor = i;
        }
        i = i + 1;
    }
    (gone, survivor)
}

/// Whether the slots of every master that goes can be counted; none are where no
/// master stays.
pub fn can_drain(
    nodes: &Vec<ClusterNode>,
    sts_name: &str,
    ns: &str,
    new_total: i32,
    old_total: i32,
) -> (b: bool)
    ensures
        forall|seed_pod: Seq<char>|
            b == #[trigger] (Drain {
                sts: sts_name@,
                ns: ns@,
                seed_pod,
                new_total: new_total as int,
                old_total: old_total as int,
            }).is_countable(table::nodes_view(nodes@)),
{
    let ghost all = table::nodes_view(nodes@);
    let n: usize = nodes.len();
    let (gone, survivor) = survey(nodes, sts_name, ns, new_total, old_total);
    let mut b = true;
    let mut i: usize = 0;
    while i < n
        invariant
            n == nodes.len() == gone.len(),
            i <= n,
            all == table::nodes_view(nodes@),
            b == forall|j: int|
                0 <= j < i && gone[j] && (#[trigger] all[j]).is_master() ==> table::ranges_ok(
                    all[j].slots,
                ),
        decreases n - i,
    {
        assert(all[i as int] == nodes[i as int]@);
        if gone[i] && nodes[i].is_master() && !nodes[i].slots_countable() {
            b = false;
        }
        i = i + 1;
    }
    let b = survivor == n || b;
    proof {
        assert forall|seed_pod: Seq<char>|
            b == #[trigger] (Drain {
                sts: sts_name@,
                ns: ns@,
                seed_pod,
                new_total: new_total as int,
                old_total: old_total as int,
            }).is_countable(all) by {
            let d = Drain {
                sts: sts_name@,
                ns: ns@,
                seed_pod,
                new_total: new_total as int,
                old_total: old_total as int,
            };
            assert(forall|j: int| 0 <= j < n ==> gone[j] == d.removes(#[trigger] all[j]));
            lemma_survivor(d, all, survivor as int);
        }
    }
    b
}

/// Plans the commands that take the pods from ordinal `new_total` on out of the
/// cluster, given through the seed. It is refused where no master would be left
/// to take the slots.
pub fn drain_for_scale_down(
    nodes: &Vec<ClusterNode>,
    sts_name: &str,
    ns: &str,
    seed_pod: &str,
    new_total: i32,
    old_total: i32,
) -> (r: Result<Vec<Command>, Error>)
    requires
        (Drain {
            sts: sts_name@,
            ns: ns@,
            seed_pod: seed_pod@,
            new_total: new_total as int,
            old_total: old_total as int,
        }).is_countable(table::nodes_view(nodes@)),
    ensures
        ({
            let all = table::nodes_view(nodes@);
            let d = Drain {
                sts: sts_name@,
                ns: ns@,
                seed_pod: seed_pod@,
                new_total: new_total as int,
                old_total: old_total as int,
            };
            &&& r is Ok <==> exists|i: int|
                0 <= i < all.len() && (#[trigger] all[i]).flags.contains("master"@) && !is_removed(
                    all[i].hostname,
                    sts_name@,
                    ns@,
                    new_total as int,
                    old_total as int,
                )
            &&& match r {
                Ok(out) => d.survivor(all) < all.len() && command::commands_view(out@)
                    == d.all_commands(all),
                Err(e) => {
                    &&& d.survivor(all) == all.len()
                    &&& e matches Error::Exec(m)
                    &&& m@ == "scale-down would leave zero surviving masters"@
                },
            }
        }),
{
    let ghost all = table::nodes_view(nodes@);
    let ghost d = Drain {
        sts: sts_name@,
        ns: ns@,
        seed_pod: seed_pod@,
        new_total: new_total as int,
        old_total: old_total as int,
    };
    let seed = command::redis_endpoint(&command::pod_fqdn(seed_pod, sts_name, ns));
    let n: usize = nodes.len();
    let (gone, survivor) = survey(nodes, sts_name, ns, new_total, old_total);
    assert(forall|j: int| 0 <= j < n ==> gone[j] == d.removes(#[trigger] all[j]));
    proof {
        lemma_survivor(d, all, survivor as int);
    }
    if survivor == n {
        return Err(Error::Exec("scale-down would leave zero surviving masters".to_string()));
    }
    let to = &nodes[survivor].id;
    assert(all[survivor as int] == nodes[survivor as int]@);
    let mut out: Vec<Command> = Vec::new();
    // Replicas first: they own no slots.
    let mut i: usize = 0;
    assert(command::commands_view(out@) =~= d.replica_commands(all.take(0)));
    while i < n
        invariant
            n == nodes.len() == gone.len(),
            i <= n,
            all == table::nodes_view(nodes@),
            d.seed_pod == seed_pod@,
            d.seed() == seed@,
            forall|j: int| 0 <= j < n ==> gone[j] == d.removes(#[trigger] all[j]),
            command::commands_view(out@) == d.replica_commands(all.take(i as int)),
        decreases n - i,
    {
        assert(all[i as int] == nodes[i as int]@);
        assert(all.take(i + 1).drop_last() =~= all.take(i as int));
        if gone[i] && !nodes[i].is_master() {
            let c = del_node_command(seed_pod, &seed, &nodes[i].id, Ghost(d));
            proof {
                command::lemma_commands_push(out@, c);
            }
            out.push(c);
        }
        i = i + 1;
    }
    assert(all.take(n as int) =~= all);
    // Then masters, each after its slots went to one that stays.
    let ghost replicas = d.replica_commands(all);
    let mut migrated = false;
    let mut i: usize = 0;
    assert(replicas + d.master_commands(all.take(0), to@) =~= replicas);
    while i < n
        invariant
            n == nodes.len() == gone.len(),
            i <= n,
            all == table::nodes_view(nodes@),
            d.seed_pod == seed_pod@,
            d.seed() == seed@,
            d.is_countable(all),
            d.survivor(all) < all.len(),
            forall|j: int| 0 <= j < n ==> gone[j] == d.removes(#[trigger] all[j]),
            command::commands_view(out@) == replicas + d.master_commands(all.take(i as int), to@),
            migrated == exists|j: int|
                0 <= j < i && d.removes(#[trigger] all[j]) && all[j].is_master()
                    && table::slot_sum(all[j].slots) > 0,
        decreases n - i,
    {
        assert(all[i as int] == nodes[i as int]@);
        assert(all.take(i + 1).drop_last() =~= all.take(i as int));
        if gone[i] && nodes[i].is_master() {
            let ghost before = d.master_commands(all.take(i as int), to@);
            let slots: u32 = nodes[i].slot_count();
            let ghost out0 = out@;
            if slots > 0 {
                let count = number::u64_text(slots as u64);
                let argv: Vec<&str> = vec![
                    "redis-cli",
                    "--cluster",
                    "reshard",
                    seed.as_str(),
                    "--cluster-from",
                    nodes[i].id.as_str(),
                    "--cluster-to",
                    to.as_str(),
                    "--cluster-slots",
                    count.as_str(),
                    "--cluster-yes",
                ];
                assert(text::views(argv@) =~= d.reshard(
                    nodes[i as int].id@,
                    to@,
                    slots as int,
                ).argv);
                let c = command::command(seed_pod, &argv);
                proof {
                    command::lemma_commands_push(out@, c);
                }
                out.push(c);
                migrated = true;
                assert(d.removes(all[i as int]));
            }
            let c = del_node_command(seed_pod, &seed, &nodes[i].id, Ghost(d));
            proof {
                command::lemma_commands_push(out@, c);
            }
            out.push(c);
            assert(command::commands_view(out@) =~= replicas + (before + d.master_command(
                all[i as int],
                to@,
            )));
        }
        i = i + 1;
    }
    assert(all.take(n as int) =~= all);
    if migrated {
        let c = grow::rebalance_command(seed_pod, &seed);
        proof {
            command::lemma_commands_push(out@, c);
        }
        out.push(c);
    }
    Ok(out)
}

proof fn lemma_replica_deleted(d: Drain, nodes: Seq<NodeView>, i: int) -> (k: int)
    requires
        0 <= i < nodes.len(),
        d.removes(nodes[i]),
        !nodes[i].is_master(),
    ensures
        0 <= k < d.replica_commands(nodes).len(),
        d.replica_commands(nodes)[k] == d.del_node(nodes[i].id),
    decreases nodes.len(),
{
    let rest = nodes.drop_last();
    if i == rest.len() {
        d.replica_commands(rest).len() as int
    } else {
        assert(rest[i] == nodes[i]);
        lemma_replica_deleted(d, rest, i)
    }
}

proof fn lemma_master_deleted(d: Drain, nodes: Seq<NodeView>, to: Seq<char>, i: int) -> (k: int)
    requires
        0 <= i < nodes.len(),
        d.removes(nodes[i]),
        nodes[i].is_master(),
    ensures
        0 <= k < d.master_commands(nodes, to).len(),
        d.master_commands(nodes, to)[k] == d.del_node(nodes[i].id),
        table::slot_sum(nodes[i].slots) > 0 ==> k > 0 && d.master_commands(nodes, to)[k - 1]
            == d.reshard(nodes[i].id, to, table::slot_sum(nodes[i].slots)),
    decreases nodes.len(),
{
    let rest = nodes.drop_last();
    let before = d.master_commands(rest, to);
    if i == rest.len() {
        let extra = d.master_command(nodes[i], to);
        let k = before.len() + extra.len() - 1;
        assert(d.master_commands(nodes, to)[k] == extra[extra.len() - 1]);
        if table::slot_sum(nodes[i].slots) > 0 {
            assert(d.master_commands(nodes, to)[k - 1] == extra[0]);
        }
        k
    } else {
        assert(rest[i] == nodes[i]);
        let k = lemma_master_deleted(d, rest, to, i);
        assert(d.master_commands(nodes, to)[k] == before[k]);
        if k > 0 {
            assert(d.master_commands(nodes, to)[k - 1] == before[k - 1]);
        }
        k
    }
}

/// Every node that goes is taken out of the cluster. A master that owns slots
/// first hands all of them to a master that stays.
pub proof fn lemma_drain_covers(d: Drain, nodes: Seq<NodeView>, i: int) -> (k: int)
    requires
        0 <= i < nodes.len(),
        d.removes(nodes[i]),
        d.survivor(nodes) < nodes.len(),
    ensures
        0 <= k < d.all_commands(nodes).len(),
        d.all_commands(nodes)[k] == d.del_node(nodes[i].id),
        nodes[i].is_master() && table::slot_sum(nodes[i].slots) > 0 ==> k > 0 && d.all_commands(
            nodes,
        )[k - 1] == d.reshard(
            nodes[i].id,
            nodes[d.survivor(nodes)].id,
            table::slot_sum(nodes[i].slots),
        ),
        d.survives(nodes[d.survivor(nodes)]),
{
    lemma_survivor_survives(d, nodes);
    let to = nodes[d.survivor(nodes)].id;
    let a = d.replica_commands(nodes);
    let b = d.master_commands(nodes, to);
    if nodes[i].is_master() {
        let k = lemma_master_deleted(d, nodes, to, i);
        assert((a + b)[a.len() + k] == b[k]);
        if k > 0 {
            assert((a + b)[a.len() + k - 1] == b[k - 1]);
        }
        a.len() + k
    } else {
        let k = lemma_replica_deleted(d, nodes, i);
        assert((a + b)[k] == a[k]);
        k
    }
}

proof fn lemma_survivor_survives(d: Drain, nodes: Seq<NodeView>)
    ensures
        0 <= d.survivor(nodes) <= nodes.len(),
        d.survivor(nodes) < nodes.len() ==> d.survives(nodes[d.survivor(nodes)]),
    decreases nodes.len(),
{
    if nodes.len() > 0 && !d.survives(nodes[0]) {
        lemma_survivor_survives(d, nodes.skip(1));
    }
}

/// Whether `c` takes a node that goes, or its slots, out of the cluster.
pub open spec fn concerns_removed(d: Drain, nodes: Seq<NodeView>, c: CommandView) -> bool {
    exists|i: int|
        0 <= i < nodes.len() && d.removes(#[trigger] nodes[i]) && (c == d.del_node(nodes[i].id) || (
        nodes[i].is_master() && c == d.reshard(
            nodes[i].id,
            nodes[d.survivor(nodes)].id,
            table::slot_sum(nodes[i].slots),
        )))
}

proof fn lemma_replica_commands_concern(d: Drain, nodes: Seq<NodeView>, k: int) -> (i: int)
    requires
        0 <= k < d.replica_commands(nodes).len(),
    ensures
        0 <= i < nodes.len(),
        d.removes(nodes[i]),
        d.replica_commands(nodes)[k] == d.del_node(nodes[i].id),
    decreases nodes.len(),
{
    let rest = nodes.drop_last();
    let before = d.replica_commands(rest);
    if k < before.len() {
        let i = lemma_replica_commands_concern(d, rest, k);
        assert(nodes[i] == rest[i]);
        i
    } else {
        nodes.len() - 1
    }
}

proof fn lemma_master_commands_concern(d: Drain, nodes: Seq<NodeView>, to: Seq<char>, k: int) -> (i:
    int)
    requires
        0 <= k < d.master_commands(nodes, to).len(),
    ensures
        0 <= i < nodes.len(),
        d.removes(nodes[i]),
        nodes[i].is_master(),
        d.master_commands(nodes, to)[k] == d.del_node(nodes[i].id) || d.master_commands(
            nodes,
            to,
        )[k] == d.reshard(nodes[i].id, to, table::slot_sum(nodes[i].slots)),
    decreases nodes.len(),
{
    let rest = nodes.drop_last();
    let before = d.master_commands(rest, to);
    if k < before.len() {
        let i = lemma_master_commands_concern(d, rest, to, k);
        assert(nodes[i] == rest[i]);
        assert(d.master_commands(nodes, to)[k] == before[k]);
        i
    } else {
        let l = nodes.len() - 1;
        assert(d.master_commands(nodes, to)[k] == d.master_command(nodes[l], to)[k - before.len()]);
        l
    }
}

/// A drain touches only what goes, until it spreads the slots anew at its end.
pub proof fn lemma_drain_spares_the_rest(d: Drain, nodes: Seq<NodeView>, k: int)
    requires
        0 <= k < d.all_commands(nodes).len(),
    ensures
        concerns_removed(d, nodes, d.all_commands(nodes)[k]) || (k == d.all_commands(nodes).len()
            - 1 && d.all_commands(nodes)[k] == grow::rebalance(d.seed_pod, d.seed())),
{
    let to = nodes[d.survivor(nodes)].id;
    let a = d.replica_commands(nodes);
    let b = d.master_commands(nodes, to);
    let c = d.all_commands(nodes)[k];
    if k < a.len() {
        assert((a + b)[k] == a[k]);
        let i = lemma_replica_commands_concern(d, nodes, k);
        assert(d.removes(nodes[i]) && c == d.del_node(nodes[i].id));
    } else if k < a.len() + b.len() {
        assert((a + b)[k] == b[k - a.len()]);
        let i = lemma_master_commands_concern(d, nodes, to, k - a.len());
        assert(d.removes(nodes[i]));
    }
}

/// A node goes exactly where its host name is that of a pod with an ordinal that
/// the set will no longer have.
pub proof fn lemma_goes(d: Drain, n: NodeView)
    ensures
        d.removes(n) <==> exists|o: int|
            d.new_total <= o < d.old_total && n.hostname == d.sts + "-"@ + #[trigger] number::written(
                o,
            ) + "."@ + d.sts + "."@ + d.ns + ".svc.cluster.local"@,
{
    assert forall|o: int|
        command::host_name(d.sts, d.ns, o) == d.sts + "-"@ + #[trigger] number::written(o) + "."@
            + d.sts + "."@ + d.ns + ".svc.cluster.local"@ by {
        assert(command::host_name(d.sts, d.ns, o) =~= d.sts + "-"@ + number::written(o) + "."@
            + d.sts + "."@ + d.ns + ".svc.cluster.local"@);
    }
    if d.removes(n) {
        let o = choose|o: int|
            d.new_total <= o < d.old_total && n.hostname == #[trigger] command::host_name(
                d.sts,
                d.ns,
                o,
            );
        assert(n.hostname == d.sts + "-"@ + number::written(o) + "."@ + d.sts + "."@ + d.ns
            + ".svc.cluster.local"@);
    }
    if exists|o: int|
        d.new_total <= o < d.old_total && n.hostname == d.sts + "-"@ + #[trigger] number::written(o)
            + "."@ + d.sts + "."@ + d.ns + ".svc.cluster.local"@ {
        let o = choose|o: int|
            d.new_total <= o < d.old_total && n.hostname == d.sts + "-"@ + #[trigger] number::written(
                o,
            ) + "."@ + d.sts + "."@ + d.ns + ".svc.cluster.local"@;
        assert(n.hostname == command::host_name(d.sts, d.ns, o));
    }
}

/// The drain goes ahead exactly where some node is a master and stays; the first
/// of these in the table takes the slots.
pub proof fn lemma_drain_refused(d: Drain, nodes: Seq<NodeView>)
    ensures
        ({
            let k = d.survivor(nodes);
            &&& 0 <= k <= nodes.len()
            &&& k < nodes.len() ==> nodes[k].flags.contains("master"@) && !d.removes(nodes[k])
            &&& forall|j: int|
                0 <= j < k ==> !(#[trigger] nodes[j]).flags.contains("master"@) || d.removes(
                    nodes[j],
                )
        }),
    decreases nodes.len(),
{
    if nodes.len() > 0 && !d.survives(nodes[0]) {
        let rest = nodes.skip(1);
        lemma_drain_refused(d, rest);
        let k = d.survivor(nodes);
        assert forall|j: int| 0 <= j < k implies !(#[trigger] nodes[j]).flags.contains("master"@)
            || d.removes(nodes[j]) by {
            if j > 0 {
                assert(rest[j - 1] == nodes[j]);
            }
        }
    }
}

/// Slots are only ever handed from a master that goes to a master that stays, the
/// first in the table, all of them at once, and right before the one that hands
/// them over is taken out of the cluster.
pub proof fn lemma_slots_handed_over(d: Drain, nodes: Seq<NodeView>, c: int) -> (r: (int, int))
    requires
        d.survivor(nodes) < nodes.len(),
        0 <= c < d.all_commands(nodes).len(),
        d.all_commands(nodes)[c].argv[2] == "reshard"@,
    ensures
        ({
            let (from, to) = r;
            let out = d.all_commands(nodes);
            let seed = d.seed_pod + "."@ + d.sts + "."@ + d.ns + ".svc.cluster.local"@ + ":6379"@;
            &&& 0 <= from < nodes.len()
            &&& nodes[from].flags.contains("master"@)
            &&& d.removes(nodes[from])
            &&& 0 <= to < nodes.len()
            &&& nodes[to].flags.contains("master"@)
            &&& !d.removes(nodes[to])
            &&& forall|j: int|
                0 <= j < to ==> !(#[trigger] nodes[j]).flags.contains("master"@) || d.removes(
                    nodes[j],
                )
            &&& nodes[from].slots.fold_left(
                0int,
                |s: int, p: (u16, u16)| s + (p.1 - p.0 + 1),
            ) > 0
            &&& out[c].pod == d.seed_pod
            &&& out[c].argv == seq![
                "redis-cli"@,
                "--cluster"@,
                "reshard"@,
                seed,
                "--cluster-from"@,
                nodes[from].id,
                "--cluster-to"@,
                nodes[to].id,
                "--cluster-slots"@,
                number::written(
                    nodes[from].slots.fold_left(
                        0int,
                        |s: int, p: (u16, u16)| s + (p.1 - p.0 + 1),
                    ),
                ),
                "--cluster-yes"@,
            ]
            &&& c + 1 < out.len()
            &&& out[c + 1].pod == d.seed_pod
            &&& out[c + 1].argv == seq![
                "redis-cli"@,
                "--cluster"@,
                "del-node"@,
                seed,
                nodes[from].id,
            ]
        }),
{
    lemma_drain_refused(d, nodes);
    lemma_words_differ();
    let to = d.survivor(nodes);
    let id = nodes[to].id;
    let a = d.replica_commands(nodes);
    let b = d.master_commands(nodes, id);
    let out = d.all_commands(nodes);
    let seed = d.seed_pod + "."@ + d.sts + "."@ + d.ns + ".svc.cluster.local"@ + ":6379"@;
    assert(d.seed() =~= seed);
    if c < a.len() {
        assert(out[c] == a[c]);
        let i = lemma_replica_commands_concern(d, nodes, c);
        assert(out[c].argv[2] == "del-node"@);
        (0, 0)
    } else if c < a.len() + b.len() {
        assert(out[c] == b[c - a.len()]);
        let i = lemma_handed_within(d, nodes, id, c - a.len());
        assert(out[c + 1] == b[c - a.len() + 1]);
        table::lemma_slots_summed(nodes[i].slots);
        (i, to)
    } else {
        assert(out[c] == grow::rebalance(d.seed_pod, d.seed()));
        assert(out[c].argv[2] == "rebalance"@);
        (0, 0)
    }
}

proof fn lemma_words_differ()
    ensures
        "reshard"@ != "del-node"@,
        "reshard"@ != "rebalance"@,
        "del-node"@ != "rebalance"@,
{
    reveal_strlit("reshard");
    reveal_strlit("del-node");
    reveal_strlit("rebalance");
    assert("reshard"@.len() == 7 && "del-node"@.len() == 8 && "rebalance"@.len() == 9);
}

proof fn lemma_handed_within(d: Drain, nodes: Seq<NodeView>, to: Seq<char>, c: int) -> (i: int)
    requires
        0 <= c < d.master_commands(nodes, to).len(),
        d.master_commands(nodes, to)[c].argv[2] == "reshard"@,
    ensures
        0 <= i < nodes.len(),
        d.removes(nodes[i]),
        nodes[i].is_master(),
        table::slot_sum(nodes[i].slots) > 0,
        d.master_commands(nodes, to)[c] == d.reshard(
            nodes[i].id,
            to,
            table::slot_sum(nodes[i].slots),
        ),
        c + 1 < d.master_commands(nodes, to).len(),
        d.master_commands(nodes, to)[c + 1] == d.del_node(nodes[i].id),
    decreases nodes.len(),
{
    lemma_words_differ();
    let rest = nodes.drop_last();
    let before = d.master_commands(rest, to);
    let all = d.master_commands(nodes, to);
    if c < before.len() {
        assert(all[c] == before[c]);
        let i = lemma_handed_within(d, rest, to, c);
        assert(nodes[i] == rest[i]);
        assert(all[c + 1] == before[c + 1]);
        i
    } else {
        let l = nodes.len() - 1;
        let extra = d.master_command(nodes[l], to);
        assert(all[c] == extra[c - before.len()]);
        assert(d.del_node(nodes[l].id).argv[2] == "del-node"@);
        assert(all[c + 1] == extra[1]);
        l
    }
}

/// Whether a replica goes, as the drain sees it.
spec fn replicas_that_go(d: Drain, nodes: Seq<NodeView>) -> Seq<NodeView> {
    nodes.filter(|n: NodeView| d.removes(n) && !n.flags.contains("master"@))
}

/// The replicas that go are taken out first, one command each, in the order of the
/// table.
pub proof fn lemma_replicas_leave_first(d: Drain, nodes: Seq<NodeView>, i: int)
    requires
        d.survivor(nodes) < nodes.len(),
        0 <= i < nodes.filter(
            |n: NodeView| d.removes(n) && !n.flags.contains("master"@),
        ).len(),
    ensures
        ({
            let out = d.all_commands(nodes);
            let gone = nodes.filter(|n: NodeView| d.removes(n) && !n.flags.contains("master"@));
            &&& gone.len() <= out.len()
            &&& out[i].pod == d.seed_pod
            &&& out[i].argv == seq![
                "redis-cli"@,
                "--cluster"@,
                "del-node"@,
                d.seed_pod + "."@ + d.sts + "."@ + d.ns + ".svc.cluster.local"@ + ":6379"@,
                gone[i].id,
            ]
        }),
{
    lemma_replicas_in_order(d, nodes);
    let seed = d.seed_pod + "."@ + d.sts + "."@ + d.ns + ".svc.cluster.local"@ + ":6379"@;
    assert(d.seed() =~= seed);
    let a = d.replica_commands(nodes);
    assert(d.all_commands(nodes)[i] == a[i]);
}

proof fn lemma_replicas_in_order(d: Drain, nodes: Seq<NodeView>)
    ensures
        d.replica_commands(nodes).len() == replicas_that_go(d, nodes).len(),
        forall|i: int|
            0 <= i < replicas_that_go(d, nodes).len() ==> #[trigger] d.replica_commands(nodes)[i]
                == d.del_node(replicas_that_go(d, nodes)[i].id),
    decreases nodes.len(),
{
    reveal(Seq::filter);
    if nodes.len() > 0 {
        let rest = nodes.drop_last();
        lemma_replicas_in_order(d, rest);
        let g = replicas_that_go(d, nodes);
        let g0 = replicas_that_go(d, rest);
        assert forall|i: int| 0 <= i < g.len() implies #[trigger] d.replica_commands(nodes)[i]
            == d.del_node(g[i].id) by {
            if i < g0.len() {
                assert(d.replica_commands(nodes)[i] == d.replica_commands(rest)[i]);
                assert(g[i] == g0[i]);
            }
        }
    }
}

/// A drain takes as many commands as nodes go and masters hand over slots, and one
/// more, at its end, exactly where any slots were handed over: it spreads the slots
/// anew.
pub proof fn lemma_drain_length(d: Drain, nodes: Seq<NodeView>)
    requires
        d.survivor(nodes) < nodes.len(),
    ensures
        ({
            let out = d.all_commands(nodes);
            let gone = nodes.filter(|n: NodeView| d.removes(n)).len();
            let givers = nodes.filter(
                |n: NodeView|
                    d.removes(n) && n.flags.contains("master"@) && n.slots.fold_left(
                        0int,
                        |s: int, p: (u16, u16)| s + (p.1 - p.0 + 1),
                    ) > 0,
            ).len();
            &&& out.len() == gone + givers + (if givers > 0 {
                1int
            } else {
                0
            })
            &&& givers > 0 ==> out.last().pod == d.seed_pod && out.last().argv == seq![
                "redis-cli"@,
                "--cluster"@,
                "rebalance"@,
                d.seed_pod + "."@ + d.sts + "."@ + d.ns + ".svc.cluster.local"@ + ":6379"@,
                "--cluster-use-empty-masters"@,
            ]
        }),
{
    let to = nodes[d.survivor(nodes)].id;
    lemma_lengths(d, nodes, to);
    let seed = d.seed_pod + "."@ + d.sts + "."@ + d.ns + ".svc.cluster.local"@ + ":6379"@;
    assert(d.seed() =~= seed);
}

proof fn lemma_lengths(d: Drain, nodes: Seq<NodeView>, to: Seq<char>)
    ensures
        ({
            let gone = nodes.filter(|n: NodeView| d.removes(n)).len();
            let givers = nodes.filter(
                |n: NodeView|
                    d.removes(n) && n.flags.contains("master"@) && n.slots.fold_left(
                        0int,
                        |s: int, p: (u16, u16)| s + (p.1 - p.0 + 1),
                    ) > 0,
            ).len();
            &&& d.replica_commands(nodes).len() + d.master_commands(nodes, to).len() == gone
                + givers
            &&& d.migrates(nodes) <==> givers > 0
        }),
    decreases nodes.len(),
{
    reveal(Seq::filter);
    if nodes.len() > 0 {
        let rest = nodes.drop_last();
        lemma_lengths(d, rest, to);
        let l = nodes.len() - 1;
        table::lemma_slots_summed(nodes[l].slots);
        if d.migrates(rest) {
            let i = choose|i: int|
                0 <= i < rest.len() && d.removes(#[trigger] rest[i]) && rest[i].is_master()
                    && table::slot_sum(rest[i].slots) > 0;
            assert(nodes[i] == rest[i]);
        }
        if d.migrates(nodes) {
            let i = choose|i: int|
                0 <= i < nodes.len() && d.removes(#[trigger] nodes[i]) && nodes[i].is_master()
                    && table::slot_sum(nodes[i].slots) > 0;
            if i < l {
                assert(nodes[i] == rest[i]);
            }
        }
    }
}

/// Every node that goes is taken out, and a master that owns slots hands them over
/// right before.
pub proof fn lemma_all_that_go_leave(d: Drain, nodes: Seq<NodeView>, i: int) -> (k: int)
    requires
        0 <= i < nodes.len(),
        d.removes(nodes[i]),
        d.survivor(nodes) < nodes.len(),
    ensures
        ({
            let out = d.all_commands(nodes);
            let seed = d.seed_pod + "."@ + d.sts + "."@ + d.ns + ".svc.cluster.local"@ + ":6379"@;
            &&& 0 <= k < out.len()
            &&& out[k].pod == d.seed_pod
            &&& out[k].argv == seq![
                "redis-cli"@,
                "--cluster"@,
                "del-node"@,
                seed,
                nodes[i].id,
            ]
            &&& nodes[i].flags.contains("master"@) && nodes[i].slots.fold_left(
                0int,
                |s: int, p: (u16, u16)| s + (p.1 - p.0 + 1),
            ) > 0 ==> {
                &&& k > 0
                &&& out[k - 1].argv[2] == "reshard"@
                &&& out[k - 1].argv[5] == nodes[i].id
            }
        }),
{
    let seed = d.seed_pod + "."@ + d.sts + "."@ + d.ns + ".svc.cluster.local"@ + ":6379"@;
    assert(d.seed() =~= seed);
    table::lemma_slots_summed(nodes[i].slots);
    lemma_drain_covers(d, nodes, i)
}

/// By a table whose ranges end no earlier than they begin, and are fewer than there
/// are slots at all, a cluster can be drained.
pub proof fn lemma_tables_drain(d: Drain, nodes: Seq<NodeView>)
    requires
        forall|i: int, j: int|
            0 <= i < nodes.len() && 0 <= j < nodes[i].slots.len() ==> (
            #[trigger] nodes[i].slots[j]).0 <= nodes[i].slots[j].1,
        forall|i: int| 0 <= i < nodes.len() ==> (#[trigger] nodes[i]).slots.len() <= u16::MAX,
    ensures
        d.is_countable(nodes),
{
    assert forall|i: int|
        0 <= i < nodes.len() && d.removes(#[trigger] nodes[i])
            && nodes[i].is_master() implies table::ranges_ok(nodes[i].slots) by {
        table::lemma_ranges_countable(nodes[i].slots);
    }
}

} // verus!
