//! Evening out replicas between masters.

use vstd::prelude::*;

use super::census;
use super::command;
use super::command::{Command, CommandView};
use super::table;
use super::table::{ClusterNode, NodeView};
use crate::text;

verus! {

/// A replica that goes from one master to another.
#[derive(Debug, PartialEq, Eq)]
pub struct ReplicaMove {
    pub replica_pod: String,
    pub from_master: String,
    pub to_master: String,
}

#[verifier::ext_equal]
pub ghost struct MoveView {
    pub replica_pod: Seq<char>,
    pub from_master: Seq<char>,
    pub to_master: Seq<char>,
}

impl View for ReplicaMove {
    type V = MoveView;

    open spec fn view(&self) -> MoveView {
        MoveView {
            replica_pod: self.replica_pod@,
            from_master: self.from_master@,
            to_master: self.to_master@,
        }
    }
}

/// What a list of moves holds.
pub open spec fn moves_view(v: Seq<ReplicaMove>) -> Seq<MoveView> {
    v.map_values(|m: ReplicaMove| m@)
}

/// The pods that replicate `id`, in the order of the table.
pub open spec fn replica_pods(nodes: Seq<NodeView>, id: Seq<char>) -> Seq<Seq<char>>
    decreases nodes.len(),
{
    if nodes.len() == 0 {
        Seq::empty()
    } else {
        let rest = replica_pods(nodes.drop_last(), id);
        if nodes.last().master_id == Some(id) {
            rest.push(text::head(nodes.last().hostname, '.'))
        } else {
            rest
        }
    }
}

/// The replicas of the master `id` beyond the first `target`, each with the
/// master that it leaves.
pub open spec fn surplus_of(nodes: Seq<NodeView>, id: Seq<char>, target: int) -> Seq<
    (Seq<char>, Seq<char>),
> {
    let pods = replica_pods(nodes, id);
    if pods.len() > target {
        pods.skip(target).map_values(|p: Seq<char>| (p, id))
    } else {
        Seq::empty()
    }
}

/// The replicas that masters among the first `k` nodes have too many.
pub open spec fn surplus(nodes: Seq<NodeView>, target: int, k: nat) -> Seq<(Seq<char>, Seq<char>)>
    decreases k,
{
    if k == 0 {
        Seq::empty()
    } else {
        let n = nodes[k - 1];
        let before = surplus(nodes, target, (k - 1) as nat);
        if n.is_master() {
            before + surplus_of(nodes, n.id, target)
        } else {
            before
        }
    }
}

/// The master `id` once for each replica that it lacks.
pub open spec fn vacancies_of(nodes: Seq<NodeView>, id: Seq<char>, target: int) -> Seq<Seq<char>> {
    let missing = target - replica_pods(nodes, id).len();
    if missing > 0 {
        Seq::new(missing as nat, |i: int| id)
    } else {
        Seq::empty()
    }
}

/// The masters among the first `k` nodes, once for each replica that they lack.
pub open spec fn vacancies(nodes: Seq<NodeView>, target: int, k: nat) -> Seq<Seq<char>>
    decreases k,
{
    if k == 0 {
        Seq::empty()
    } else {
        let n = nodes[k - 1];
        let before = vacancies(nodes, target, (k - 1) as nat);
        if n.is_master() {
            before + vacancies_of(nodes, n.id, target)
        } else {
            before
        }
    }
}

/// The smaller of two lengths.
pub open spec fn shorter(a: nat, b: nat) -> nat {
    if a < b {
        a
    } else {
        b
    }
}

/// The moves that even out a table: surplus replicas in order take the vacant
/// places in order, until one of the two runs out.
pub open spec fn balancing_moves(nodes: Seq<NodeView>, target: int) -> Seq<MoveView> {
    let s = surplus(nodes, target, nodes.len());
    let v = vacancies(nodes, target, nodes.len());
    Seq::new(
        shorter(s.len(), v.len()),
        |i: int| MoveView { replica_pod: s[i].0, from_master: s[i].1, to_master: v[i] },
    )
}

proof fn lemma_no_vacancies(nodes: Seq<NodeView>, target: int, k: nat)
    requires
        target < 0,
        k <= nodes.len(),
    ensures
        vacancies(nodes, target, k).len() == 0,
    decreases k,
{
    if k > 0 {
        lemma_no_vacancies(nodes, target, (k - 1) as nat);
    }
}

proof fn lemma_replica_pods_len(nodes: Seq<NodeView>, id: Seq<char>)
    ensures
        replica_pods(nodes, id).len() == census::replica_count(nodes, id),
    decreases nodes.len(),
{
    if nodes.len() > 0 {
        lemma_replica_pods_len(nodes.drop_last(), id);
    }
}

/// The pods that replicate `id`.
fn pods_replicating(nodes: &Vec<ClusterNode>, id: &str) -> (pods: Vec<String>)
    ensures
        text::owned_views(pods@) == replica_pods(table::nodes_view(nodes@), id@),
{
    let ghost all = table::nodes_view(nodes@);
    let mut pods: Vec<String> = Vec::new();
    let mut i: usize = 0;
    assert(text::owned_views(pods@) =~= replica_pods(all.take(0), id@));
    while i < nodes.len()
        invariant
            i <= nodes.len(),
            all == table::nodes_view(nodes@),
            text::owned_views(pods@) == replica_pods(all.take(i as int), id@),
        decreases nodes.len() - i,
    {
        proof {
            assert(all.take(i + 1).drop_last() =~= all.take(i as int));
            assert(all.take(i + 1).last() == nodes[i as int]@);
        }
        if census::replicates(&nodes[i], id) {
            let ghost before = pods@;
            let p = command::pod_of(&nodes[i].hostname).to_string();
            pods.push(p);
            assert(text::owned_views(pods@) =~= text::owned_views(before).push(p@));
        }
        i = i + 1;
    }
    assert(all.take(i as int) =~= all);
    pods
}

/// What a list of surplus replicas holds.
spec fn surplus_view(v: Seq<(String, String)>) -> Seq<(Seq<char>, Seq<char>)> {
    v.map_values(|p: (String, String)| (p.0@, p.1@))
}

/// The replicas that masters have too many, each with its master.
fn collect_surplus(nodes: &Vec<ClusterNode>, target: i32) -> (out: Vec<(String, String)>)
    requires
        target >= 0,
    ensures
        surplus_view(out@) == surplus(
            table::nodes_view(nodes@),
            target as int,
            nodes.len() as nat,
        ),
{
    let ghost all = table::nodes_view(nodes@);
    let mut out: Vec<(String, String)> = Vec::new();
    let mut k: usize = 0;
    assert(surplus_view(out@) =~= surplus(all, target as int, 0));
    while k < nodes.len()
        invariant
            target >= 0,
            k <= nodes.len(),
            all == table::nodes_view(nodes@),
            surplus_view(out@) == surplus(all, target as int, k as nat),
        decreases nodes.len() - k,
    {
        assert(all[k as int] == nodes[k as int]@);
        if nodes[k].is_master() {
            let id = &nodes[k].id;
            let pods = pods_replicating(nodes, id);
            let ghost base = surplus_view(out@);
            let ghost extra = surplus_of(all, id@, target as int);
            let ghost pv = replica_pods(all, id@);
            if pods.len() > target as usize {
                let mut j: usize = target as usize;
                assert(extra.take(0) =~= Seq::empty());
                assert(base + extra.take(0) =~= base);
                while j < pods.len()
                    invariant
                        target as usize <= j <= pods.len(),
                        target >= 0,
                        pv == text::owned_views(pods@),
                        pv.len() > target,
                        extra == pv.skip(target as int).map_values(|p: Seq<char>| (p, id@)),
                        surplus_view(out@) == base + extra.take(j - target),
                    decreases pods.len() - j,
                {
                    let ghost before = out@;
                    let p = pods[j].clone();
                    let m = id.clone();
                    assert(extra[j - target] == (pv[j as int], id@));
                    out.push((p, m));
                    proof {
                        assert(surplus_view(out@) =~= surplus_view(before).push((p@, m@)));
                        assert(extra.take(j - target + 1) =~= extra.take(j - target).push(
                            (p@, m@),
                        ));
                        assert(surplus_view(out@) =~= base + extra.take(j - target + 1));
                    }
                    j = j + 1;
                }
                assert(extra.take(pods.len() - target) =~= extra);
            } else {
                assert(base + extra =~= base);
            }
        }
        k = k + 1;
    }
    out
}

/// The masters that lack replicas, once for each that they lack, but no more
/// than `limit` of them.
fn collect_vacancies(nodes: &Vec<ClusterNode>, target: i32, limit: usize) -> (out: Vec<String>)
    requires
        target >= 0,
    ensures
        ({
            let v = vacancies(table::nodes_view(nodes@), target as int, nodes.len() as nat);
            text::owned_views(out@) == v.take(shorter(limit as nat, v.len()) as int)
        }),
{
    let ghost all = table::nodes_view(nodes@);
    let mut out: Vec<String> = Vec::new();
    let mut k: usize = 0;
    assert(text::owned_views(out@) =~= vacancies(all, target as int, 0).take(0));
    while k < nodes.len()
        invariant
            target >= 0,
            k <= nodes.len(),
            all == table::nodes_view(nodes@),
            out.len() <= limit,
            ({
                let v = vacancies(all, target as int, k as nat);
                text::owned_views(out@) == v.take(shorter(limit as nat, v.len()) as int)
            }),
        decreases nodes.len() - k,
    {
        assert(all[k as int] == nodes[k as int]@);
        let ghost v0 = vacancies(all, target as int, k as nat);
        let ghost v1 = vacancies(all, target as int, (k + 1) as nat);
        if nodes[k].is_master() {
            let id = &nodes[k].id;
            let have: usize = census::count_replicas(nodes, id);
            proof {
                lemma_replica_pods_len(all, id@);
            }
            let ghost extra = vacancies_of(all, id@, target as int);
            assert(v1 =~= v0 + extra);
            let mut filled: usize = have;
            if out.len() < limit {
                assert(v0.take(v0.len() as int) =~= v0);
            }
            while filled < target as usize && out.len() < limit
                invariant
                    target >= 0,
                    have <= filled,
                    have == replica_pods(all, id@).len(),
                    extra == vacancies_of(all, id@, target as int),
                    v1 == v0 + extra,
                    out.len() <= limit,
                    filled <= target || filled == have,
                    filled == have || text::owned_views(out@) == v1.take(
                        v0.len() + filled - have,
                    ),
                    filled == have ==> text::owned_views(out@) == v0.take(
                        shorter(limit as nat, v0.len()) as int,
                    ),
                    filled > have ==> v0.len() + filled - have <= limit,
                decreases target as usize - filled,
            {
                let ghost before = out@;
                let ghost at = (v0.len() + filled - have) as int;
                let m = id.clone();
                proof {
                    if filled == have {
                        assert(v0.take(v0.len() as int) =~= v0);
                        assert(v1.take(at) =~= v0);
                    }
                    assert(extra[filled - have] == id@);
                    assert(v1[at] == id@);
                }
                out.push(m);
                proof {
                    assert(text::owned_views(out@) =~= text::owned_views(before).push(m@));
                    assert(v1.take(at + 1) =~= v1.take(at).push(id@));
                }
                filled = filled + 1;
            }
            proof {
                if filled == have {
                    if out.len() < limit {
                        assert(extra =~= Seq::<Seq<char>>::empty());
                        assert(v1 =~= v0);
                    } else {
                        assert(v1.take(limit as int) =~= v0.take(limit as int));
                    }
                } else if out.len() < limit {
                    assert(v1.len() == v0.len() + filled - have);
                }
            }
        }
        k = k + 1;
    }
    out
}

/// Plans the moves after which every master has `replicas_per_master` replicas,
/// as far as the replicas at hand go. No node is added or removed; replicas that
/// no master lacks stay where they are.
pub fn balance_replicas(nodes: &Vec<ClusterNode>, replicas_per_master: i32) -> (moves: Vec<
    ReplicaMove,
>)
    requires
        replicas_per_master >= 0 || census::master_count(table::nodes_view(nodes@)) == 0,
    ensures
        moves_view(moves@) == balancing_moves(
            table::nodes_view(nodes@),
            replicas_per_master as int,
        ),
{
    let ghost all = table::nodes_view(nodes@);
    let ghost target = replicas_per_master as int;
    if replicas_per_master < 0 {
        proof {
            lemma_no_vacancies(all, target, all.len());
        }
        let moves: Vec<ReplicaMove> = Vec::new();
        assert(moves_view(moves@) =~= balancing_moves(all, target));
        return moves;
    }
    let from = collect_surplus(nodes, replicas_per_master);
    let to = collect_vacancies(nodes, replicas_per_master, from.len());
    let ghost s = surplus(all, target, all.len());
    let ghost v = vacancies(all, target, all.len());
    let ghost want = balancing_moves(all, target);
    let mut moves: Vec<ReplicaMove> = Vec::new();
    let mut i: usize = 0;
    assert(surplus_view(from@).len() == from.len());
    assert(text::owned_views(to@).len() == to.len());
    while i < to.len()
        invariant
            i <= to.len(),
            to.len() <= from.len(),
            s == surplus_view(from@),
            text::owned_views(to@) == v.take(to.len() as int),
            to.len() <= v.len(),
            want.len() == to.len(),
            forall|j: int|
                0 <= j < want.len() ==> #[trigger] want[j] == (MoveView {
                    replica_pod: s[j].0,
                    from_master: s[j].1,
                    to_master: v[j],
                }),
            moves_view(moves@) == want.take(i as int),
        decreases to.len() - i,
    {
        let ghost before = moves@;
        let m = ReplicaMove {
            replica_pod: from[i].0.clone(),
            from_master: from[i].1.clone(),
            to_master: to[i].clone(),
        };
        proof {
            assert(s[i as int] == (from[i as int].0@, from[i as int].1@));
            assert(v.take(to.len() as int)[i as int] == to[i as int]@);
            assert(want[i as int] == m@);
        }
        moves.push(m);
        proof {
            assert(moves_view(moves@) =~= moves_view(before).push(m@));
            assert(want.take(i + 1) =~= want.take(i as int).push(m@));
        }
        i = i + 1;
    }
    assert(want.take(i as int) =~= want);
    moves
}

/// The command that makes the node in `pod` replicate the master `id`.
pub open spec fn replicate(pod: Seq<char>, id: Seq<char>) -> CommandView {
    CommandView { pod, argv: seq!["redis-cli"@, "cluster"@, "replicate"@, id] }
}

/// The command that makes the node in `pod` replicate the master `id`.
pub fn replicate_command(pod: &str, id: &str) -> (c: Command)
    ensures
        c@ == replicate(pod@, id@),
{
    let argv: Vec<&str> = vec!["redis-cli", "cluster", "replicate", id];
    assert(text::views(argv@) =~= replicate(pod@, id@).argv);
    command::command(pod, &argv)
}

proof fn lemma_surplus_from_overloaded(nodes: Seq<NodeView>, target: int, k: nat, i: int)
    requires
        k <= nodes.len(),
        target >= 0,
        0 <= i < surplus(nodes, target, k).len(),
    ensures
        census::replica_count(nodes, surplus(nodes, target, k)[i].1) > target,
        census::is_tracked(nodes, surplus(nodes, target, k)[i].1),
    decreases k,
{
    if k > 0 {
        let n = nodes[k - 1];
        let before = surplus(nodes, target, (k - 1) as nat);
        if i < before.len() {
            lemma_surplus_from_overloaded(nodes, target, (k - 1) as nat, i);
        } else {
            lemma_replica_pods_len(nodes, n.id);
            assert(surplus(nodes, target, k)[i] == surplus_of(nodes, n.id, target)[i
                - before.len()]);
        }
    }
}

proof fn lemma_vacancies_of_underloaded(nodes: Seq<NodeView>, target: int, k: nat, i: int)
    requires
        k <= nodes.len(),
        0 <= i < vacancies(nodes, target, k).len(),
    ensures
        census::replica_count(nodes, vacancies(nodes, target, k)[i]) < target,
        census::is_tracked(nodes, vacancies(nodes, target, k)[i]),
    decreases k,
{
    if k > 0 {
        let n = nodes[k - 1];
        let before = vacancies(nodes, target, (k - 1) as nat);
        if i < before.len() {
            lemma_vacancies_of_underloaded(nodes, target, (k - 1) as nat, i);
        } else {
            lemma_replica_pods_len(nodes, n.id);
            assert(vacancies(nodes, target, k)[i] == vacancies_of(nodes, n.id, target)[i
                - before.len()]);
        }
    }
}

/// Every move takes a replica from a master that has too many to one that has
/// too few.
pub proof fn lemma_moves_help(nodes: Seq<NodeView>, target: int, i: int)
    requires
        0 <= i < balancing_moves(nodes, target).len(),
    ensures
        census::replica_count(nodes, balancing_moves(nodes, target)[i].from_master) > target,
        census::replica_count(nodes, balancing_moves(nodes, target)[i].to_master) < target,
{
    if target < 0 {
        lemma_no_vacancies(nodes, target, nodes.len());
    }
    lemma_surplus_from_overloaded(nodes, target, nodes.len(), i);
    lemma_vacancies_of_underloaded(nodes, target, nodes.len(), i);
}

/// How often `id` occurs among `ids`.
pub open spec fn occurrences(ids: Seq<Seq<char>>, id: Seq<char>) -> int
    decreases ids.len(),
{
    if ids.len() == 0 {
        0
    } else {
        occurrences(ids.drop_last(), id) + (if ids.last() == id {
            1int
        } else {
            0
        })
    }
}

proof fn lemma_occurrences_concat(a: Seq<Seq<char>>, b: Seq<Seq<char>>, id: Seq<char>)
    ensures
        occurrences(a + b, id) == occurrences(a, id) + occurrences(b, id),
    decreases b.len(),
{
    if b.len() == 0 {
        assert(a + b =~= a);
    } else {
        lemma_occurrences_concat(a, b.drop_last(), id);
        assert((a + b).drop_last() =~= a + b.drop_last());
    }
}

proof fn lemma_occurrences_same(n: nat, x: Seq<char>, id: Seq<char>)
    ensures
        occurrences(Seq::new(n, |i: int| x), id) == (if x == id {
            n as int
        } else {
            0
        }),
    decreases n,
{
    let s = Seq::new(n, |i: int| x);
    if n > 0 {
        lemma_occurrences_same((n - 1) as nat, x, id);
        assert(s.drop_last() =~= Seq::new((n - 1) as nat, |i: int| x));
    }
}

proof fn lemma_occurrences_take(ids: Seq<Seq<char>>, k: int, id: Seq<char>)
    requires
        0 <= k <= ids.len(),
    ensures
        0 <= occurrences(ids.take(k), id) <= occurrences(ids, id),
    decreases ids.len(),
{
    if ids.len() > 0 {
        if k == ids.len() {
            assert(ids.take(k) =~= ids);
            lemma_occurrences_take(ids.drop_last(), k - 1, id);
            assert(ids.drop_last().take(k - 1) =~= ids.drop_last());
        } else {
            lemma_occurrences_take(ids.drop_last(), k, id);
            assert(ids.drop_last().take(k) =~= ids.take(k));
        }
    } else {
        assert(ids.take(k) =~= ids);
    }
}

/// Whether no two masters of a table have the same id.
pub open spec fn master_ids_distinct(nodes: Seq<NodeView>) -> bool {
    forall|i: int, j: int|
        0 <= i < j < nodes.len() && (#[trigger] nodes[i]).is_master() && (
        #[trigger] nodes[j]).is_master() ==> nodes[i].id != nodes[j].id
}

/// Whether one of the first `k` nodes is the master `id`.
pub open spec fn listed_master(nodes: Seq<NodeView>, id: Seq<char>, k: int) -> bool {
    exists|i: int| 0 <= i < k && (#[trigger] nodes[i]).is_master() && nodes[i].id == id
}

proof fn lemma_vacancies_count(nodes: Seq<NodeView>, target: int, k: nat, id: Seq<char>)
    requires
        k <= nodes.len(),
        master_ids_distinct(nodes),
    ensures
        occurrences(vacancies(nodes, target, k), id) == (if listed_master(nodes, id, k as int)
            && target > census::replica_count(nodes, id) {
            target - census::replica_count(nodes, id)
        } else {
            0
        }),
    decreases k,
{
    if k > 0 {
        let n = nodes[k - 1];
        lemma_vacancies_count(nodes, target, (k - 1) as nat, id);
        lemma_replica_pods_len(nodes, n.id);
        let extra = vacancies_of(nodes, n.id, target);
        let missing = target - replica_pods(nodes, n.id).len();
        if n.is_master() {
            lemma_occurrences_concat(vacancies(nodes, target, (k - 1) as nat), extra, id);
            if missing > 0 {
                lemma_occurrences_same(missing as nat, n.id, id);
            }
        }
        if listed_master(nodes, id, k - 1) {
            let i = choose|i: int|
                0 <= i < k - 1 && (#[trigger] nodes[i]).is_master() && nodes[i].id == id;
            assert(listed_master(nodes, id, k as int));
            assert(n.is_master() ==> nodes[i].id != nodes[k - 1].id);
        }
        if listed_master(nodes, id, k as int) && !listed_master(nodes, id, k - 1) {
            let i = choose|i: int|
                0 <= i < k && (#[trigger] nodes[i]).is_master() && nodes[i].id == id;
            assert(i == k - 1);
        }
        if n.is_master() && n.id == id {
            assert(nodes[k - 1].is_master() && nodes[k - 1].id == id);
            assert(listed_master(nodes, id, k as int));
        }
    }
}

proof fn lemma_occurrences_mapped(pods: Seq<Seq<char>>, x: Seq<char>, id: Seq<char>)
    ensures
        occurrences(
            pods.map_values(|p: Seq<char>| (p, x)).map_values(|t: (Seq<char>, Seq<char>)| t.1),
            id,
        ) == (if x == id {
            pods.len() as int
        } else {
            0
        }),
{
    let s = pods.map_values(|p: Seq<char>| (p, x)).map_values(|t: (Seq<char>, Seq<char>)| t.1);
    assert(s =~= Seq::new(pods.len(), |i: int| x));
    lemma_occurrences_same(pods.len(), x, id);
}

/// The masters that surplus replicas leave.
pub open spec fn sources(s: Seq<(Seq<char>, Seq<char>)>) -> Seq<Seq<char>> {
    s.map_values(|t: (Seq<char>, Seq<char>)| t.1)
}

proof fn lemma_surplus_count(nodes: Seq<NodeView>, target: int, k: nat, id: Seq<char>)
    requires
        k <= nodes.len(),
        target >= 0,
        master_ids_distinct(nodes),
    ensures
        occurrences(sources(surplus(nodes, target, k)), id) == (if listed_master(
            nodes,
            id,
            k as int,
        ) && census::replica_count(nodes, id) > target {
            census::replica_count(nodes, id) - target
        } else {
            0
        }),
    decreases k,
{
    if k > 0 {
        let n = nodes[k - 1];
        let before = surplus(nodes, target, (k - 1) as nat);
        lemma_surplus_count(nodes, target, (k - 1) as nat, id);
        lemma_replica_pods_len(nodes, n.id);
        let pods = replica_pods(nodes, n.id);
        let extra = surplus_of(nodes, n.id, target);
        if n.is_master() {
            assert(sources(before + extra) =~= sources(before) + sources(extra));
            lemma_occurrences_concat(sources(before), sources(extra), id);
            if pods.len() > target {
                lemma_occurrences_mapped(pods.skip(target), n.id, id);
            } else {
                assert(sources(extra) =~= Seq::<Seq<char>>::empty());
            }
        }
        if listed_master(nodes, id, k - 1) {
            let i = choose|i: int|
                0 <= i < k - 1 && (#[trigger] nodes[i]).is_master() && nodes[i].id == id;
            assert(listed_master(nodes, id, k as int));
            assert(n.is_master() ==> nodes[i].id != nodes[k - 1].id);
        }
        if listed_master(nodes, id, k as int) && !listed_master(nodes, id, k - 1) {
            let i = choose|i: int|
                0 <= i < k && (#[trigger] nodes[i]).is_master() && nodes[i].id == id;
            assert(i == k - 1);
        }
        if n.is_master() && n.id == id {
            assert(nodes[k - 1].is_master() && nodes[k - 1].id == id);
            assert(listed_master(nodes, id, k as int));
        }
    }
}

/// The masters that moves go from.
pub open spec fn move_sources(moves: Seq<MoveView>) -> Seq<Seq<char>> {
    moves.map_values(|m: MoveView| m.from_master)
}

/// The masters that moves go to.
pub open spec fn move_targets(moves: Seq<MoveView>) -> Seq<Seq<char>> {
    moves.map_values(|m: MoveView| m.to_master)
}

/// The replicas of `id` once the moves are made.
pub open spec fn replicas_after(nodes: Seq<NodeView>, moves: Seq<MoveView>, id: Seq<char>) -> int {
    census::replica_count(nodes, id) + occurrences(move_targets(moves), id) - occurrences(
        move_sources(moves),
        id,
    )
}

/// After the moves, a master that had too few replicas has at most the target,
/// one that had too many has at least the target, and one that had the target
/// has it still. Where replicas of a listed master remain above the target, no
/// listed master is below it.
pub proof fn lemma_moves_approach_target(nodes: Seq<NodeView>, target: int, id: Seq<char>)
    requires
        master_ids_distinct(nodes),
    ensures
        ({
            let had = census::replica_count(nodes, id);
            let has = replicas_after(nodes, balancing_moves(nodes, target), id);
            &&& had <= target ==> had <= has <= target
            &&& had >= target ==> target <= has <= had
            &&& listed_master(nodes, id, nodes.len() as int) && has > target ==> forall|other: Seq<
                char,
            >|
                #![trigger listed_master(nodes, other, nodes.len() as int)]
                listed_master(nodes, other, nodes.len() as int) ==> replicas_after(
                    nodes,
                    balancing_moves(nodes, target),
                    other,
                ) >= target
        }),
{
    let moves = balancing_moves(nodes, target);
    if target < 0 {
        lemma_no_vacancies(nodes, target, nodes.len());
        assert(moves.len() == 0);
        assert forall|other: Seq<char>|
            #![trigger replicas_after(nodes, moves, other)]
            replicas_after(nodes, moves, other) == census::replica_count(nodes, other)
                && census::replica_count(nodes, other) >= 0 by {
            census::lemma_counts_bounded(nodes, other);
        }
        assert(replicas_after(nodes, moves, id) == census::replica_count(nodes, id));
    } else {
        lemma_moves_reach(nodes, target, id);
    }
}

proof fn lemma_moves_reach(nodes: Seq<NodeView>, target: int, id: Seq<char>)
    requires
        target >= 0,
        master_ids_distinct(nodes),
    ensures
        ({
            let moves = balancing_moves(nodes, target);
            let had = census::replica_count(nodes, id);
            let has = replicas_after(nodes, moves, id);
            &&& had <= target ==> had <= has <= target
            &&& had >= target ==> target <= has <= had
            &&& listed_master(nodes, id, nodes.len() as int) && has > target ==> forall|other: Seq<
                char,
            >|
                #![trigger listed_master(nodes, other, nodes.len() as int)]
                listed_master(nodes, other, nodes.len() as int) ==> replicas_after(
                    nodes,
                    moves,
                    other,
                ) >= target
        }),
{
    let s = surplus(nodes, target, nodes.len());
    let v = vacancies(nodes, target, nodes.len());
    let moves = balancing_moves(nodes, target);
    lemma_moves_bounds(nodes, target, id);
    if listed_master(nodes, id, nodes.len() as int) && replicas_after(nodes, moves, id) > target {
        lemma_surplus_count(nodes, target, nodes.len(), id);
        if s.len() <= v.len() {
            assert(move_sources(moves) =~= sources(s));
        }
        assert(v.len() < s.len());
        assert(move_targets(moves) =~= v);
        assert forall|other: Seq<char>|
            #![trigger listed_master(nodes, other, nodes.len() as int)]
            listed_master(nodes, other, nodes.len() as int) implies replicas_after(
            nodes,
            moves,
            other,
        ) >= target by {
            lemma_vacancies_count(nodes, target, nodes.len(), other);
            lemma_moves_bounds(nodes, target, other);
        }
    }
}

proof fn lemma_moves_bounds(nodes: Seq<NodeView>, target: int, id: Seq<char>)
    requires
        target >= 0,
        master_ids_distinct(nodes),
    ensures
        ({
            let had = census::replica_count(nodes, id);
            let moves = balancing_moves(nodes, target);
            let has = replicas_after(nodes, moves, id);
            &&& had <= target ==> had <= has <= target && occurrences(move_sources(moves), id) == 0
            &&& had >= target ==> target <= has <= had && occurrences(move_targets(moves), id) == 0
        }),
{
    let s = surplus(nodes, target, nodes.len());
    let v = vacancies(nodes, target, nodes.len());
    let moves = balancing_moves(nodes, target);
    let m = moves.len() as int;
    assert(move_sources(moves) =~= sources(s).take(m));
    assert(move_targets(moves) =~= v.take(m));
    lemma_surplus_count(nodes, target, nodes.len(), id);
    lemma_vacancies_count(nodes, target, nodes.len(), id);
    lemma_occurrences_take(sources(s), m, id);
    lemma_occurrences_take(v, m, id);
}

proof fn lemma_occurrences_filtered(moves: Seq<MoveView>, id: Seq<char>)
    ensures
        occurrences(move_targets(moves), id) == moves.filter(
            |m: MoveView| m.to_master == id,
        ).len(),
        occurrences(move_sources(moves), id) == moves.filter(
            |m: MoveView| m.from_master == id,
        ).len(),
    decreases moves.len(),
{
    reveal(Seq::filter);
    if moves.len() > 0 {
        lemma_occurrences_filtered(moves.drop_last(), id);
        assert(move_targets(moves).drop_last() =~= move_targets(moves.drop_last()));
        assert(move_sources(moves).drop_last() =~= move_sources(moves.drop_last()));
    }
}

/// A master with too few replicas loses none and gains no more than it lacks; one
/// with too many gains none and keeps the target. While a master keeps more than
/// the target, no other lacks any.
pub proof fn lemma_balance_evens(nodes: Seq<NodeView>, target: int, id: Seq<char>, other: Seq<char>)
    requires
        forall|i: int, j: int|
            0 <= i < j < nodes.len() && (#[trigger] nodes[i]).flags.contains("master"@) && (
            #[trigger] nodes[j]).flags.contains("master"@) ==> nodes[i].id != nodes[j].id,
    ensures
        ({
            let moves = balancing_moves(nodes, target);
            let had = nodes.filter(|n: NodeView| n.master_id == Some(id)).len();
            let gained = moves.filter(|m: MoveView| m.to_master == id).len();
            let lost = moves.filter(|m: MoveView| m.from_master == id).len();
            let others = nodes.filter(|n: NodeView| n.master_id == Some(other)).len()
                + moves.filter(|m: MoveView| m.to_master == other).len();
            &&& target >= 0 && had <= target ==> lost == 0 && had + gained <= target
            &&& target >= 0 && had >= target ==> gained == 0 && had - lost >= target
            &&& target < 0 ==> moves.len() == 0
            &&& target >= 0 && had - lost > target && (exists|i: int|
                0 <= i < nodes.len() && (#[trigger] nodes[i]).flags.contains("master"@)
                    && nodes[i].id == id) && (exists|i: int|
                0 <= i < nodes.len() && (#[trigger] nodes[i]).flags.contains("master"@)
                    && nodes[i].id == other) ==> others >= target
        }),
{
    let moves = balancing_moves(nodes, target);
    census::lemma_replicas_counted(nodes, id);
    census::lemma_replicas_counted(nodes, other);
    lemma_occurrences_filtered(moves, id);
    lemma_occurrences_filtered(moves, other);
    assert(master_ids_distinct(nodes)) by {
        assert forall|i: int, j: int|
            0 <= i < j < nodes.len() && (#[trigger] nodes[i]).is_master() && (
            #[trigger] nodes[j]).is_master() implies nodes[i].id != nodes[j].id by {
            assert(nodes[i].flags.contains("master"@) && nodes[j].flags.contains("master"@));
        }
    }
    if target < 0 {
        lemma_no_vacancies(nodes, target, nodes.len());
    } else {
        lemma_moves_bounds(nodes, target, id);
        lemma_moves_bounds(nodes, target, other);
        lemma_moves_reach(nodes, target, id);
        if exists|i: int|
            0 <= i < nodes.len() && (#[trigger] nodes[i]).flags.contains("master"@) && nodes[i].id
                == id {
            let i = choose|i: int|
                0 <= i < nodes.len() && (#[trigger] nodes[i]).flags.contains("master"@)
                    && nodes[i].id == id;
            assert(nodes[i].is_master());
            assert(listed_master(nodes, id, nodes.len() as int));
        }
        if exists|i: int|
            0 <= i < nodes.len() && (#[trigger] nodes[i]).flags.contains("master"@) && nodes[i].id
                == other {
            let i = choose|i: int|
                0 <= i < nodes.len() && (#[trigger] nodes[i]).flags.contains("master"@)
                    && nodes[i].id == other;
            assert(nodes[i].is_master());
            assert(listed_master(nodes, other, nodes.len() as int));
        }
    }
}

/// What moves is a replica of the master that it leaves, and not one of the first
/// replicas of that master, as many as the target, which stay. It goes from one
/// master of the table to another.
pub proof fn lemma_what_moves(nodes: Seq<NodeView>, target: int, i: int) -> (j: int)
    requires
        0 <= i < balancing_moves(nodes, target).len(),
    ensures
        ({
            let m = balancing_moves(nodes, target)[i];
            &&& 0 <= j < nodes.len()
            &&& nodes[j].master_id == Some(m.from_master)
            &&& m.replica_pod == text::head(nodes[j].hostname, '.')
            &&& nodes.take(j).filter(
                |n: NodeView| n.master_id == Some(m.from_master),
            ).len() >= target
            &&& exists|k: int|
                0 <= k < nodes.len() && (#[trigger] nodes[k]).flags.contains("master"@)
                    && nodes[k].id == m.from_master
            &&& exists|k: int|
                0 <= k < nodes.len() && (#[trigger] nodes[k]).flags.contains("master"@)
                    && nodes[k].id == m.to_master
            &&& m.from_master != m.to_master
        }),
{
    let m = balancing_moves(nodes, target)[i];
    lemma_moves_help(nodes, target, i);
    if target < 0 {
        lemma_no_vacancies(nodes, target, nodes.len());
    }
    let (k, c) = lemma_surplus_place(nodes, target, nodes.len(), i);
    assert(nodes[k].is_master() == nodes[k].flags.contains("master"@));
    let l = lemma_vacancy_place(nodes, target, nodes.len(), i);
    assert(nodes[l].is_master() == nodes[l].flags.contains("master"@));
    let j = lemma_replica_place(nodes, m.from_master, c);
    census::lemma_replicas_counted(nodes.take(j), m.from_master);
    j
}

proof fn lemma_surplus_place(nodes: Seq<NodeView>, target: int, k: nat, i: int) -> (r: (int, int))
    requires
        k <= nodes.len(),
        target >= 0,
        0 <= i < surplus(nodes, target, k).len(),
    ensures
        0 <= r.0 < k,
        nodes[r.0].is_master(),
        nodes[r.0].id == surplus(nodes, target, k)[i].1,
        target <= r.1 < replica_pods(nodes, nodes[r.0].id).len(),
        surplus(nodes, target, k)[i].0 == replica_pods(nodes, nodes[r.0].id)[r.1],
    decreases k,
{
    let n = nodes[k - 1];
    let before = surplus(nodes, target, (k - 1) as nat);
    if i < before.len() {
        let r = lemma_surplus_place(nodes, target, (k - 1) as nat, i);
        assert(surplus(nodes, target, k)[i] == before[i]);
        r
    } else {
        let c = i - before.len();
        assert(surplus(nodes, target, k)[i] == surplus_of(nodes, n.id, target)[c]);
        let pods = replica_pods(nodes, n.id);
        assert(pods.skip(target)[c] == pods[target + c]);
        (k - 1, target + c)
    }
}

proof fn lemma_vacancy_place(nodes: Seq<NodeView>, target: int, k: nat, i: int) -> (r: int)
    requires
        k <= nodes.len(),
        0 <= i < vacancies(nodes, target, k).len(),
    ensures
        0 <= r < k,
        nodes[r].is_master(),
        nodes[r].id == vacancies(nodes, target, k)[i],
    decreases k,
{
    let n = nodes[k - 1];
    let before = vacancies(nodes, target, (k - 1) as nat);
    if i < before.len() {
        let r = lemma_vacancy_place(nodes, target, (k - 1) as nat, i);
        assert(vacancies(nodes, target, k)[i] == before[i]);
        r
    } else {
        assert(vacancies(nodes, target, k)[i] == vacancies_of(nodes, n.id, target)[i
            - before.len()]);
        k - 1
    }
}

proof fn lemma_replica_place(nodes: Seq<NodeView>, id: Seq<char>, c: int) -> (j: int)
    requires
        0 <= c < replica_pods(nodes, id).len(),
    ensures
        0 <= j < nodes.len(),
        nodes[j].master_id == Some(id),
        replica_pods(nodes, id)[c] == text::head(nodes[j].hostname, '.'),
        census::replica_count(nodes.take(j), id) == c,
    decreases nodes.len(),
{
    let rest = nodes.drop_last();
    let before = replica_pods(rest, id);
    if c < before.len() {
        let j = lemma_replica_place(rest, id, c);
        assert(rest[j] == nodes[j]);
        assert(rest.take(j) =~= nodes.take(j));
        j
    } else {
        let j = nodes.len() - 1;
        lemma_replica_pods_len(rest, id);
        assert(nodes.take(j) =~= rest);
        j
    }
}

/// A replica is told in its own pod which master to follow.
pub proof fn lemma_move_told(pod: Seq<char>, id: Seq<char>)
    ensures
        replicate(pod, id).pod == pod,
        replicate(pod, id).argv == seq!["redis-cli"@, "cluster"@, "replicate"@, id],
{
}

} // verus!
