//! Making a cluster, and adding to it the pods that are not in it yet.

use vstd::prelude::*;

use super::census;
use super::command;
use super::command::{Command, CommandView};
use super::table;
use super::table::{ClusterNode, NodeView};
use crate::crd::redis_cluster;
use crate::number;
use crate::order;
use crate::str_map;
use crate::str_map::StrMap;
use crate::text;

verus! {

/// The command that makes a cluster out of `total` pods, run in the first.
pub open spec fn create_argv(
    sts: Seq<char>,
    ns: Seq<char>,
    total: int,
    replicas_per_master: int,
) -> Seq<Seq<char>> {
    seq!["redis-cli"@, "--cluster"@, "create"@] + endpoints(sts, ns, total) + seq![
        "--cluster-replicas"@,
        number::written(replicas_per_master),
        "--cluster-yes"@,
    ]
}

/// Where the first `total` pods of a set listen.
pub open spec fn endpoints(sts: Seq<char>, ns: Seq<char>, total: int) -> Seq<Seq<char>> {
    if total <= 0 {
        Seq::empty()
    } else {
        Seq::new(total as nat, |i: int| command::endpoint(command::host_name(sts, ns, i)))
    }
}

/// The command that makes a cluster out of the pods of a set.
pub fn bootstrap(sts_name: &str, ns: &str, masters: i32, replicas_per_master: i32) -> (c: Command)
    requires
        redis_cluster::pods_fit(masters, replicas_per_master),
    ensures
        c@ == (CommandView {
            pod: command::pod_name(sts_name@, 0),
            argv: create_argv(
                sts_name@,
                ns@,
                redis_cluster::pod_count(masters as int, replicas_per_master as int),
                replicas_per_master as int,
            ),
        }),
{
    let total: i32 = redis_cluster::total_pods(masters, replicas_per_master);
    let mut argv: Vec<String> = vec![
        "redis-cli".to_string(),
        "--cluster".to_string(),
        "create".to_string(),
    ];
    let ghost head = seq!["redis-cli"@, "--cluster"@, "create"@];
    let ghost eps = endpoints(sts_name@, ns@, total as int);
    assert(text::owned_views(argv@) =~= head + eps.take(0));
    let mut i: i32 = 0;
    while i < total
        invariant
            0 <= i,
            i <= total || i == 0,
            eps == endpoints(sts_name@, ns@, total as int),
            i <= eps.len(),
            text::owned_views(argv@) == head + eps.take(i as int),
        decreases total - i,
    {
        let ghost before = argv@;
        let e = command::redis_endpoint(&command::pod_hostname(sts_name, ns, i));
        argv.push(e);
        assert(text::owned_views(argv@) =~= text::owned_views(before).push(e@));
        assert(eps.take(i + 1) =~= eps.take(i as int).push(e@));
        assert(text::owned_views(argv@) =~= head + eps.take(i + 1));
        i = i + 1;
    }
    assert(eps.take(i as int) =~= eps);
    let ghost mid = argv@;
    argv.push("--cluster-replicas".to_string());
    argv.push(number::i32_text(replicas_per_master));
    argv.push("--cluster-yes".to_string());
    assert(text::owned_views(argv@) =~= text::owned_views(mid) + seq![
        "--cluster-replicas"@,
        number::written(replicas_per_master as int),
        "--cluster-yes"@,
    ]);
    Command { pod: command::ordinal_pod(sts_name, 0), argv }
}

/// Whether a node of the table has this host name.
pub open spec fn is_listed(nodes: Seq<NodeView>, host: Seq<char>) -> bool {
    exists|i: int| 0 <= i < nodes.len() && (#[trigger] nodes[i]).hostname == host
}

/// The first `total` ordinals whose pods the table does not list.
pub open spec fn unassigned(nodes: Seq<NodeView>, sts: Seq<char>, ns: Seq<char>, total: nat) -> Seq<
    int,
>
    decreases total,
{
    if total == 0 {
        Seq::empty()
    } else {
        let before = unassigned(nodes, sts, ns, (total - 1) as nat);
        if is_listed(nodes, command::host_name(sts, ns, total - 1)) {
            before
        } else {
            before.push(total - 1)
        }
    }
}

/// How many replicas each tracked master has.
pub open spec fn loads(nodes: Seq<NodeView>) -> Map<Seq<char>, int> {
    Map::new(
        |id: Seq<char>| census::is_tracked(nodes, id),
        |id: Seq<char>| census::replica_count(nodes, id),
    )
}

/// Whether `id` is the master with the fewest replicas, and of those the first
/// by id.
pub open spec fn is_least_loaded(loads: Map<Seq<char>, int>, id: Seq<char>) -> bool {
    &&& loads.contains_key(id)
    &&& forall|other: Seq<char>| #[trigger]
        loads.contains_key(other) && other != id ==> loads[id] < loads[other] || (loads[id]
            == loads[other] && order::less(id, other))
}

/// The master with the fewest replicas, and of those the first by id.
pub open spec fn least_loaded(loads: Map<Seq<char>, int>) -> Seq<char> {
    choose|id: Seq<char>| is_least_loaded(loads, id)
}

/// How a pod joins a cluster.
#[derive(Debug, PartialEq, Eq)]
pub enum Addition {
    /// As a master, without slots at first.
    Master { ordinal: i32 },
    /// As a replica of the master `of`.
    Replica { ordinal: i32, of: String },
}

pub ghost enum AdditionView {
    Master { ordinal: int },
    Replica { ordinal: int, of: Seq<char> },
}

impl View for Addition {
    type V = AdditionView;

    open spec fn view(&self) -> AdditionView {
        match *self {
            Addition::Master { ordinal } => AdditionView::Master { ordinal: ordinal as int },
            Addition::Replica { ordinal, of } => AdditionView::Replica {
                ordinal: ordinal as int,
                of: of@,
            },
        }
    }
}

/// What a list of additions holds.
pub open spec fn additions_view(v: Seq<Addition>) -> Seq<AdditionView> {
    v.map_values(|a: Addition| a@)
}

/// How the pods `ordinals` join, one after the other: as masters while there are
/// fewer than `wanted`, and then each as a replica of the master that has the
/// fewest by then. With no master to attach to, a pod is left out.
pub open spec fn additions(
    ordinals: Seq<int>,
    masters: int,
    wanted: int,
    loads: Map<Seq<char>, int>,
) -> Seq<AdditionView>
    decreases ordinals.len(),
{
    if ordinals.len() == 0 {
        Seq::empty()
    } else {
        let rest = ordinals.skip(1);
        if masters < wanted {
            seq![AdditionView::Master { ordinal: ordinals[0] }] + additions(
                rest,
                masters + 1,
                wanted,
                loads,
            )
        } else if loads.dom().is_empty() {
            additions(rest, masters, wanted, loads)
        } else {
            let of = least_loaded(loads);
            seq![AdditionView::Replica { ordinal: ordinals[0], of }] + additions(
                rest,
                masters,
                wanted,
                loads.insert(of, loads[of] + 1),
            )
        }
    }
}

/// What a map of loads holds.
spec fn loads_view(m: StrMap<i64>) -> Map<Seq<char>, int> {
    m@.map_values(|c: i64| c as int)
}

proof fn lemma_least_loaded_unique(loads: Map<Seq<char>, int>, id: Seq<char>)
    requires
        is_least_loaded(loads, id),
    ensures
        least_loaded(loads) == id,
{
    let c = least_loaded(loads);
    assert(is_least_loaded(loads, c));
    if c != id {
        assert(loads.contains_key(c) && loads.contains_key(id));
        if order::less(c, id) && order::less(id, c) {
            order::lemma_less_transitive(c, id, c);
            order::lemma_less_irreflexive(c);
        }
    }
}

/// The master with the fewest replicas.
fn pick_least_loaded(m: &StrMap<i64>) -> (r: Option<String>)
    ensures
        r is None <==> loads_view(*m).dom().is_empty(),
        r matches Some(id) ==> is_least_loaded(loads_view(*m), id@),
{
    let n: usize = m.len();
    let ghost e = m.pairs();
    let ghost l = loads_view(*m);
    if n == 0 {
        proof {
            assert forall|k: Seq<char>| !(#[trigger] l.contains_key(k)) by {
                if l.contains_key(k) {
                    assert(str_map::has_key(e, k));
                }
            }
            assert(l.dom() =~= Set::<Seq<char>>::empty());
        }
        return None;
    }
    let mut best: usize = 0;
    let mut i: usize = 1;
    while i < n
        invariant
            n == e.len(),
            e == m.pairs(),
            str_map::keys_ascend(e),
            1 <= i <= n,
            best < i,
            forall|j: int|
                0 <= j < i && j != best ==> e[best as int].1 < (#[trigger] e[j]).1 || (
                e[best as int].1 == e[j].1 && best < j),
        decreases n - i,
    {
        if *m.value_at(i) < *m.value_at(best) {
            best = i;
        }
        i = i + 1;
    }
    let id = m.key_at(best).to_string();
    proof {
        str_map::lemma_map_of(e, best as int);
        assert(l.contains_key(id@));
        assert forall|other: Seq<char>| #[trigger] l.contains_key(other) && other != id@ implies l[id@]
            < l[other] || (l[id@] == l[other] && order::less(id@, other)) by {
            assert(str_map::has_key(e, other));
            let j = str_map::place_of(e, other);
            assert(e[j].0 == other);
            str_map::lemma_map_of(e, j);
        }
    }
    Some(id)
}

/// How many replicas each tracked master has.
fn collect_loads(nodes: &Vec<ClusterNode>) -> (m: StrMap<i64>)
    requires
        nodes.len() <= i32::MAX,
    ensures
        loads_view(m) == loads(table::nodes_view(nodes@)),
        forall|k: Seq<char>| #[trigger] m@.contains_key(k) ==> 0 <= m@[k] <= i32::MAX,
{
    let ghost all = table::nodes_view(nodes@);
    let ids = census::tracked_masters(nodes);
    let ghost keys = text::owned_views(ids@);
    let mut m: StrMap<i64> = StrMap::new();
    let mut i: usize = 0;
    while i < ids.len()
        invariant
            i <= ids.len(),
            all == table::nodes_view(nodes@),
            all.len() <= i32::MAX,
            keys == text::owned_views(ids@),
            forall|k: Seq<char>| #[trigger]
                m@.contains_key(k) <==> exists|j: int| 0 <= j < i && #[trigger] keys[j] == k,
            forall|k: Seq<char>| #[trigger]
                m@.contains_key(k) ==> m@[k] == census::replica_count(all, k),
        decreases ids.len() - i,
    {
        let c: usize = census::count_replicas(nodes, &ids[i]);
        proof {
            census::lemma_counts_bounded(all, ids[i as int]@);
        }
        let ghost before = m@;
        let ghost key = keys[i as int];
        m.insert(ids[i].clone(), c as i64);
        proof {
            assert forall|k: Seq<char>| #[trigger] m@.contains_key(k) implies exists|j: int|
                0 <= j < i + 1 && #[trigger] keys[j] == k by {
                if k == key {
                    assert(keys[i as int] == k);
                } else {
                    assert(before.contains_key(k));
                    let j = choose|j: int| 0 <= j < i && #[trigger] keys[j] == k;
                    assert(0 <= j < i + 1 && keys[j] == k);
                }
            }
        }
        i = i + 1;
    }
    proof {
        census::lemma_tracked_ids(all);
        let l = loads_view(m);
        assert forall|k: Seq<char>| l.contains_key(k) == #[trigger] loads(all).contains_key(k) by {
            if m@.contains_key(k) {
                let j = choose|j: int| 0 <= j < ids.len() && #[trigger] keys[j] == k;
                assert(keys.contains(k));
            }
            if census::is_tracked(all, k) {
                assert(keys.contains(k));
                let j = choose|j: int| 0 <= j < keys.len() && keys[j] == k;
                assert(0 <= j < ids.len() && keys[j] == k);
                assert(m@.contains_key(k));
            }
        }
        assert(l.dom() =~= loads(all).dom()) by {
            assert forall|k: Seq<char>| l.dom().contains(k) == #[trigger] loads(all).dom().contains(
                k,
            ) by {
                assert(l.contains_key(k) == loads(all).contains_key(k));
            }
        }
        assert forall|k: Seq<char>| #[trigger] l.contains_key(k) implies l[k] == loads(all)[k] by {
            assert(m@.contains_key(k));
        }
        assert(l =~= loads(all));
        assert forall|k: Seq<char>| #[trigger] m@.contains_key(k) implies 0 <= m@[k] <= i32::MAX by {
            census::lemma_counts_bounded(all, k);
        }
    }
    m
}

/// Whether a node of the table has this host name.
fn lists(nodes: &Vec<ClusterNode>, host: &str) -> (b: bool)
    ensures
        b == is_listed(table::nodes_view(nodes@), host@),
{
    let ghost all = table::nodes_view(nodes@);
    let mut i: usize = 0;
    while i < nodes.len()
        invariant
            i <= nodes.len(),
            all == table::nodes_view(nodes@),
            forall|j: int| 0 <= j < i ==> (#[trigger] all[j]).hostname != host@,
        decreases nodes.len() - i,
    {
        assert(all[i as int] == nodes[i as int]@);
        if text::same(&nodes[i].hostname, host) {
            return true;
        }
        i = i + 1;
    }
    false
}

/// What a list of ordinals holds.
spec fn ordinals_view(v: Seq<i32>) -> Seq<int> {
    v.map_values(|o: i32| o as int)
}

/// The ordinals whose pods the table does not list.
fn missing_ordinals(nodes: &Vec<ClusterNode>, sts_name: &str, ns: &str, total: i32) -> (v: Vec<i32>)
    ensures
        ordinals_view(v@) == unassigned(
            table::nodes_view(nodes@),
            sts_name@,
            ns@,
            if total < 0 {
                0
            } else {
                total as nat
            },
        ),
        v.len() <= i32::MAX,
{
    let ghost all = table::nodes_view(nodes@);
    let mut v: Vec<i32> = Vec::new();
    let mut i: i32 = 0;
    assert(ordinals_view(v@) =~= unassigned(all, sts_name@, ns@, 0));
    while i < total
        invariant
            0 <= i,
            i <= total || i == 0,
            v.len() <= i,
            all == table::nodes_view(nodes@),
            ordinals_view(v@) == unassigned(all, sts_name@, ns@, i as nat),
        decreases total - i,
    {
        if !lists(nodes, &command::pod_hostname(sts_name, ns, i)) {
            let ghost before = v@;
            v.push(i);
            assert(ordinals_view(v@) =~= ordinals_view(before).push(i as int));
        }
        i = i + 1;
    }
    v
}

/// Plans how the pods of a set that the node table does not list join the
/// cluster. `masters` is how many masters are wanted, `total` how many pods the
/// set has.
pub fn plan_additions(
    nodes: &Vec<ClusterNode>,
    sts_name: &str,
    ns: &str,
    masters: i32,
    total: i32,
) -> (plan: Vec<Addition>)
    requires
        nodes.len() <= i32::MAX,
    ensures
        ({
            let all = table::nodes_view(nodes@);
            additions_view(plan@) == additions(
                unassigned(
                    all,
                    sts_name@,
                    ns@,
                    if total < 0 {
                        0
                    } else {
                        total as nat
                    },
                ),
                census::master_count(all),
                masters as int,
                loads(all),
            )
        }),
{
    let ghost all = table::nodes_view(nodes@);
    let ordinals = missing_ordinals(nodes, sts_name, ns, total);
    let ghost ords = ordinals_view(ordinals@);
    proof {
        census::lemma_counts_bounded(all, Seq::empty());
    }
    let mut current: i64 = census::count_masters(nodes) as i64;
    let mut m = collect_loads(nodes);
    let ghost goal = additions(ords, current as int, masters as int, loads_view(m));
    let mut plan: Vec<Addition> = Vec::new();
    let mut i: usize = 0;
    proof {
        assert(ords.skip(0) =~= ords);
        assert(additions_view(plan@) + goal =~= goal);
    }
    while i < ordinals.len()
        invariant
            i <= ordinals.len(),
            ordinals.len() <= i32::MAX,
            ords == ordinals_view(ordinals@),
            0 <= current <= i32::MAX + i,
            forall|k: Seq<char>| #[trigger] m@.contains_key(k) ==> 0 <= m@[k] <= i32::MAX + i,
            additions_view(plan@) + additions(
                ords.skip(i as int),
                current as int,
                masters as int,
                loads_view(m),
            ) == goal,
        decreases ordinals.len() - i,
    {
        let ordinal: i32 = ordinals[i];
        let ghost rest = ords.skip(i as int);
        let ghost before = plan@;
        let ghost l = loads_view(m);
        proof {
            assert(rest[0] == ordinal);
            assert(rest.skip(1) =~= ords.skip(i + 1));
        }
        if current < masters as i64 {
            let a = Addition::Master { ordinal };
            plan.push(a);
            current = current + 1;
            proof {
                assert(additions_view(plan@) =~= additions_view(before).push(a@));
                let tail = additions(ords.skip(i + 1), current as int, masters as int, l);
                assert(additions_view(plan@) + tail =~= additions_view(before) + (seq![a@] + tail));
            }
        } else {
            match pick_least_loaded(&m) {
                None => {},
                Some(id) => {
                    proof {
                        lemma_least_loaded_unique(l, id@);
                        assert(l.contains_key(id@));
                    }
                    let c: i64 = match m.get(&id) {
                        Some(c) => *c,
                        None => 0,
                    };
                    let of = id.clone();
                    m.insert(id, c + 1);
                    assert(loads_view(m) =~= l.insert(of@, l[of@] + 1));
                    let a = Addition::Replica { ordinal, of };
                    plan.push(a);
                    proof {
                        assert(additions_view(plan@) =~= additions_view(before).push(a@));
                        let tail = additions(
                            ords.skip(i + 1),
                            current as int,
                            masters as int,
                            loads_view(m),
                        );
                        assert(additions_view(plan@) + tail =~= additions_view(before) + (seq![a@]
                            + tail));
                    }
                },
            }
        }
        i = i + 1;
    }
    assert(ords.skip(i as int) =~= Seq::<int>::empty());
    assert(additions_view(plan@) + Seq::<AdditionView>::empty() =~= additions_view(plan@));
    plan
}

impl AdditionView {
    pub open spec fn ordinal_of(self) -> int {
        match self {
            AdditionView::Master { ordinal } => ordinal,
            AdditionView::Replica { ordinal, .. } => ordinal,
        }
    }
}

/// Pods join in their order, each once: first as many masters as are lacking,
/// then replicas of masters that are there. None is left out unless there is no
/// master at all to attach it to.
pub proof fn lemma_additions(
    ordinals: Seq<int>,
    masters: int,
    wanted: int,
    loads: Map<Seq<char>, int>,
)
    ensures
        ({
            let a = additions(ordinals, masters, wanted, loads);
            &&& a.len() <= ordinals.len()
            &&& !loads.dom().is_empty() ==> a.len() == ordinals.len()
            &&& ordinals.len() <= wanted - masters ==> a.len() == ordinals.len()
            &&& forall|i: int|
                0 <= i < a.len() ==> (#[trigger] a[i]).ordinal_of() == ordinals[i] && (
                a[i] is Master <==> i < wanted - masters)
        }),
    decreases ordinals.len(),
{
    if ordinals.len() > 0 {
        let rest = ordinals.skip(1);
        let a = additions(ordinals, masters, wanted, loads);
        if masters < wanted {
            lemma_additions(rest, masters + 1, wanted, loads);
            let b = additions(rest, masters + 1, wanted, loads);
            assert forall|i: int| 0 <= i < a.len() implies (#[trigger] a[i]).ordinal_of()
                == ordinals[i] && (a[i] is Master <==> i < wanted - masters) by {
                if i > 0 {
                    assert(a[i] == b[i - 1]);
                    assert(rest[i - 1] == ordinals[i]);
                }
            }
        } else if loads.dom().is_empty() {
            lemma_additions(rest, masters, wanted, loads);
            lemma_nothing_to_attach(rest, masters, wanted, loads);
        } else {
            let of = least_loaded(loads);
            let more = loads.insert(of, loads[of] + 1);
            assert(more.dom().contains(of));
            lemma_additions(rest, masters, wanted, more);
            let b = additions(rest, masters, wanted, more);
            assert forall|i: int| 0 <= i < a.len() implies (#[trigger] a[i]).ordinal_of()
                == ordinals[i] && (a[i] is Master <==> i < wanted - masters) by {
                if i > 0 {
                    assert(a[i] == b[i - 1]);
                    assert(rest[i - 1] == ordinals[i]);
                }
            }
        }
    }
}

proof fn lemma_nothing_to_attach(
    ordinals: Seq<int>,
    masters: int,
    wanted: int,
    loads: Map<Seq<char>, int>,
)
    requires
        masters >= wanted,
        loads.dom().is_empty(),
    ensures
        additions(ordinals, masters, wanted, loads).len() == 0,
    decreases ordinals.len(),
{
    if ordinals.len() > 0 {
        lemma_nothing_to_attach(ordinals.skip(1), masters, wanted, loads);
    }
}

/// The pods that join are those that the table does not list.
pub proof fn lemma_unassigned(nodes: Seq<NodeView>, sts: Seq<char>, ns: Seq<char>, total: nat)
    ensures
        forall|o: int| #[trigger]
            unassigned(nodes, sts, ns, total).contains(o) <==> 0 <= o < total && !is_listed(
                nodes,
                command::host_name(sts, ns, o),
            ),
        unassigned(nodes, sts, ns, total).no_duplicates(),
    decreases total,
{
    let u = unassigned(nodes, sts, ns, total);
    if total > 0 {
        let before = unassigned(nodes, sts, ns, (total - 1) as nat);
        lemma_unassigned(nodes, sts, ns, (total - 1) as nat);
        assert forall|o: int| #[trigger] u.contains(o) <==> 0 <= o < total && !is_listed(
            nodes,
            command::host_name(sts, ns, o),
        ) by {
            assert(before.contains(o) <==> 0 <= o < total - 1 && !is_listed(
                nodes,
                command::host_name(sts, ns, o),
            ));
            if u != before {
                if before.contains(o) {
                    let i = choose|i: int| 0 <= i < before.len() && before[i] == o;
                    assert(u[i] == o);
                }
                assert(u[before.len() as int] == total - 1);
                if u.contains(o) && o != total - 1 {
                    let i = choose|i: int| 0 <= i < u.len() && u[i] == o;
                    assert(before[i] == o);
                }
            }
        }
        if u != before {
            assert(!before.contains(total - 1));
        }
    }
}

/// How many of the first `k` additions attach a replica to `id`.
spec fn attached(plan: Seq<AdditionView>, k: int, id: Seq<char>) -> int {
    plan.take(k).filter(|a: AdditionView| a is Replica && a->of == id).len() as int
}

proof fn lemma_attached_grows(plan: Seq<AdditionView>, k: int, id: Seq<char>)
    requires
        0 <= k < plan.len(),
    ensures
        attached(plan, 0, id) == 0,
        attached(plan, k + 1, id) == attached(plan, k, id) + (if plan[k] is Replica && plan[k]->of
            == id {
            1int
        } else {
            0
        }),
{
    reveal(Seq::filter);
    assert(plan.take(k + 1).drop_last() =~= plan.take(k));
    assert(plan.take(k + 1).last() == plan[k]);
}

/// The additions behind the first one, `a`, attach what all of them attach but for
/// `a`.
proof fn lemma_attached_behind(a: AdditionView, rest: Seq<AdditionView>, k: int, id: Seq<char>)
    requires
        0 <= k <= rest.len(),
    ensures
        attached(seq![a] + rest, k + 1, id) == attached(rest, k, id) + (if a is Replica && a->of
            == id {
            1int
        } else {
            0
        }),
    decreases k,
{
    let plan = seq![a] + rest;
    lemma_attached_grows(plan, k, id);
    lemma_attached_grows(plan, 0, id);
    if k > 0 {
        lemma_attached_behind(a, rest, k - 1, id);
        lemma_attached_grows(rest, k - 1, id);
        assert(plan[k] == rest[k - 1]);
    } else {
        reveal(Seq::filter);
        assert(rest.take(0).len() == 0);
    }
}

/// Among finitely many loads there is a least one, the first by id.
proof fn lemma_least_exists(loads: Map<Seq<char>, int>)
    requires
        loads.dom().finite(),
        !loads.dom().is_empty(),
    ensures
        is_least_loaded(loads, least_loaded(loads)),
    decreases loads.dom().len(),
{
    let k = loads.dom().choose();
    assert(loads.contains_key(k));
    let rest = loads.remove(k);
    assert(rest.dom() =~= loads.dom().remove(k));
    if rest.dom().is_empty() {
        assert forall|other: Seq<char>| #[trigger] loads.contains_key(other) && other != k implies
            loads[k] < loads[other] || (loads[k] == loads[other] && order::less(k, other)) by {
            assert(rest.dom().contains(other));
        }
        assert(is_least_loaded(loads, k));
    } else {
        lemma_least_exists(rest);
        let l = least_loaded(rest);
        assert(rest.contains_key(l));
        order::lemma_less_total(k, l);
        let best = if loads[k] < loads[l] || (loads[k] == loads[l] && order::less(k, l)) {
            k
        } else {
            l
        };
        assert forall|other: Seq<char>| #[trigger] loads.contains_key(other) && other
            != best implies loads[best] < loads[other] || (loads[best] == loads[other]
            && order::less(best, other)) by {
            if other != k && other != l {
                assert(rest.contains_key(other));
                if best == k && loads[k] == loads[l] && loads[l] == loads[other] {
                    order::lemma_less_transitive(k, l, other);
                }
            }
        }
        assert(is_least_loaded(loads, best));
    }
}

/// Each replica goes to the master that has the fewest by then.
proof fn lemma_least_by_then(
    ordinals: Seq<int>,
    masters: int,
    wanted: int,
    loads: Map<Seq<char>, int>,
    i: int,
    other: Seq<char>,
)
    requires
        loads.dom().finite(),
        loads.contains_key(other),
        0 <= i < additions(ordinals, masters, wanted, loads).len(),
        additions(ordinals, masters, wanted, loads)[i] is Replica,
    ensures
        ({
            let plan = additions(ordinals, masters, wanted, loads);
            let of = plan[i]->of;
            let a = loads[of] + attached(plan, i, of);
            let b = loads[other] + attached(plan, i, other);
            loads.contains_key(of) && (of == other || a < b || (a == b && order::less(of, other)))
        }),
    decreases ordinals.len(),
{
    let plan = additions(ordinals, masters, wanted, loads);
    let rest = ordinals.skip(1);
    if masters < wanted {
        let tail = additions(rest, masters + 1, wanted, loads);
        let first = AdditionView::Master { ordinal: ordinals[0] };
        assert(plan =~= seq![first] + tail);
        assert(plan[i] == tail[i - 1]);
        lemma_least_by_then(rest, masters + 1, wanted, loads, i - 1, other);
        lemma_attached_behind(first, tail, i - 1, plan[i]->of);
        lemma_attached_behind(first, tail, i - 1, other);
    } else {
        assert(!loads.dom().is_empty()) by {
            assert(loads.dom().contains(other));
        }
        let of = least_loaded(loads);
        lemma_least_exists(loads);
        let more = loads.insert(of, loads[of] + 1);
        let tail = additions(rest, masters, wanted, more);
        let first = AdditionView::Replica { ordinal: ordinals[0], of };
        assert(plan =~= seq![first] + tail);
        if i == 0 {
            lemma_attached_grows(plan, 0, of);
            lemma_attached_grows(plan, 0, other);
        } else {
            assert(plan[i] == tail[i - 1]);
            assert(more.dom() =~= loads.dom().insert(of));
            lemma_least_by_then(rest, masters, wanted, more, i - 1, other);
            lemma_attached_behind(first, tail, i - 1, plan[i]->of);
            lemma_attached_behind(first, tail, i - 1, other);
        }
    }
}

proof fn lemma_loads_finite(nodes: Seq<NodeView>)
    ensures
        loads(nodes).dom().finite(),
{
    census::lemma_tracked_ids(nodes);
    let ids = census::tracked_ids(nodes);
    vstd::seq_lib::seq_to_set_is_finite(ids);
    assert(loads(nodes).dom() =~= ids.to_set());
}

proof fn lemma_loads_of(nodes: Seq<NodeView>, id: Seq<char>, j: int)
    requires
        0 <= j < nodes.len(),
        (nodes[j].flags.contains("master"@) && nodes[j].id == id) || nodes[j].master_id == Some(id),
    ensures
        loads(nodes).contains_key(id),
        loads(nodes)[id] == nodes.filter(|n: NodeView| n.master_id == Some(id)).len(),
{
    census::lemma_replicas_counted(nodes, id);
    assert(nodes[j].is_master() == nodes[j].flags.contains("master"@));
    assert(census::is_tracked(nodes, id));
}

/// A pod that joins as a replica joins a master that no other master has fewer
/// replicas than, counting those in the table and those that joined before it. Of
/// several such masters it joins the first by id.
pub proof fn lemma_joins_least_loaded(
    nodes: Seq<NodeView>,
    ordinals: Seq<int>,
    wanted: int,
    i: int,
    other: Seq<char>,
    j: int,
)
    requires
        ({
            let plan = additions(ordinals, census::master_count(nodes), wanted, loads(nodes));
            0 <= i < plan.len() && plan[i] is Replica
        }),
        0 <= j < nodes.len(),
        (nodes[j].flags.contains("master"@) && nodes[j].id == other) || nodes[j].master_id == Some(
            other,
        ),
    ensures
        ({
            let plan = additions(ordinals, census::master_count(nodes), wanted, loads(nodes));
            let of = plan[i]->of;
            let had = nodes.filter(|n: NodeView| n.master_id == Some(of)).len() + plan.take(
                i,
            ).filter(|a: AdditionView| a is Replica && a->of == of).len();
            let others = nodes.filter(|n: NodeView| n.master_id == Some(other)).len() + plan.take(
                i,
            ).filter(|a: AdditionView| a is Replica && a->of == other).len();
            &&& exists|k: int|
                0 <= k < nodes.len() && (((#[trigger] nodes[k]).flags.contains("master"@)
                    && nodes[k].id == of) || nodes[k].master_id == Some(of))
            &&& had <= others
            &&& had == others && of != other ==> order::less(of, other)
        }),
{
    let m = census::master_count(nodes);
    let plan = additions(ordinals, m, wanted, loads(nodes));
    let of = plan[i]->of;
    lemma_loads_finite(nodes);
    lemma_loads_of(nodes, other, j);
    lemma_least_by_then(ordinals, m, wanted, loads(nodes), i, other);
    assert(census::is_tracked(nodes, of));
    let k = choose|k: int|
        0 <= k < nodes.len() && (((#[trigger] nodes[k]).is_master() && nodes[k].id == of)
            || nodes[k].master_id == Some(of));
    assert(nodes[k].is_master() == nodes[k].flags.contains("master"@));
    lemma_loads_of(nodes, of, k);
}

/// Masters that start with equally many replicas never differ by more than one
/// while pods join.
pub proof fn lemma_joins_evenly(
    nodes: Seq<NodeView>,
    ordinals: Seq<int>,
    wanted: int,
    k: int,
    a: Seq<char>,
    i: int,
    b: Seq<char>,
    j: int,
)
    requires
        0 <= k <= additions(ordinals, census::master_count(nodes), wanted, loads(nodes)).len(),
        0 <= i < nodes.len(),
        (nodes[i].flags.contains("master"@) && nodes[i].id == a) || nodes[i].master_id == Some(a),
        0 <= j < nodes.len(),
        (nodes[j].flags.contains("master"@) && nodes[j].id == b) || nodes[j].master_id == Some(b),
        nodes.filter(|n: NodeView| n.master_id == Some(a)).len() == nodes.filter(
            |n: NodeView| n.master_id == Some(b),
        ).len(),
    ensures
        ({
            let plan = additions(ordinals, census::master_count(nodes), wanted, loads(nodes));
            let x = plan.take(k).filter(|d: AdditionView| d is Replica && d->of == a).len();
            let y = plan.take(k).filter(|d: AdditionView| d is Replica && d->of == b).len();
            x <= y + 1 && y <= x + 1
        }),
    decreases k,
{
    let plan = additions(ordinals, census::master_count(nodes), wanted, loads(nodes));
    assert(plan.take(k).filter(|d: AdditionView| d is Replica && d->of == a).len() == attached(
        plan,
        k,
        a,
    ));
    assert(plan.take(k).filter(|d: AdditionView| d is Replica && d->of == b).len() == attached(
        plan,
        k,
        b,
    ));
    if k == 0 {
        reveal(Seq::filter);
        assert(plan.take(0).len() == 0);
    } else {
        lemma_joins_evenly(nodes, ordinals, wanted, k - 1, a, i, b, j);
        lemma_attached_grows(plan, k - 1, a);
        lemma_attached_grows(plan, k - 1, b);
        assert(plan.take(k - 1).filter(|d: AdditionView| d is Replica && d->of == a).len()
            == attached(plan, k - 1, a));
        assert(plan.take(k - 1).filter(|d: AdditionView| d is Replica && d->of == b).len()
            == attached(plan, k - 1, b));
        if plan[k - 1] is Replica {
            if plan[k - 1]->of == a {
                lemma_joins_least_loaded(nodes, ordinals, wanted, k - 1, b, j);
            }
            if plan[k - 1]->of == b {
                lemma_joins_least_loaded(nodes, ordinals, wanted, k - 1, a, i);
            }
        }
    }
}

/// The pods that join are those of the set that no node of the table announces, in
/// the order of their ordinals. As many of them as masters are lacking join as
/// masters, and these come first. The others join as replicas, and are left out
/// only where no node of the table is or has a master.
pub proof fn lemma_who_joins(
    nodes: Seq<NodeView>,
    sts: Seq<char>,
    ns: Seq<char>,
    wanted: int,
    total: nat,
)
    ensures
        ({
            let plan = additions(
                unassigned(nodes, sts, ns, total),
                census::master_count(nodes),
                wanted,
                loads(nodes),
            );
            let lacking = wanted - nodes.filter(
                |n: NodeView| n.flags.contains("master"@),
            ).len();
            &&& forall|i: int|
                0 <= i < plan.len() ==> {
                    let o = match #[trigger] plan[i] {
                        AdditionView::Master { ordinal } => ordinal,
                        AdditionView::Replica { ordinal, .. } => ordinal,
                    };
                    &&& 0 <= o < total
                    &&& forall|k: int|
                        0 <= k < nodes.len() ==> (#[trigger] nodes[k]).hostname != sts + "-"@
                            + number::written(o) + "."@ + sts + "."@ + ns
                            + ".svc.cluster.local"@
                    &&& plan[i] is Master <==> i < lacking
                }
            &&& forall|i: int, j: int|
                0 <= i < j < plan.len() ==> (match #[trigger] plan[i] {
                    AdditionView::Master { ordinal } => ordinal,
                    AdditionView::Replica { ordinal, .. } => ordinal,
                }) < (match #[trigger] plan[j] {
                    AdditionView::Master { ordinal } => ordinal,
                    AdditionView::Replica { ordinal, .. } => ordinal,
                })
            &&& forall|o: int|
                0 <= o < total && (forall|k: int|
                    0 <= k < nodes.len() ==> (#[trigger] nodes[k]).hostname != sts + "-"@
                        + #[trigger] number::written(o) + "."@ + sts + "."@ + ns
                        + ".svc.cluster.local"@) ==> (exists|i: int|
                    0 <= i < plan.len() && (match #[trigger] plan[i] {
                        AdditionView::Master { ordinal } => ordinal,
                        AdditionView::Replica { ordinal, .. } => ordinal,
                    }) == o) || (plan.len() >= lacking && forall|k: int|
                    0 <= k < nodes.len() ==> !(#[trigger] nodes[k]).flags.contains("master"@)
                        && nodes[k].master_id is None)
        }),
{
    let u = unassigned(nodes, sts, ns, total);
    let m = census::master_count(nodes);
    let plan = additions(u, m, wanted, loads(nodes));
    lemma_unassigned(nodes, sts, ns, total);
    lemma_unassigned_ascends(nodes, sts, ns, total);
    lemma_additions(u, m, wanted, loads(nodes));
    census::lemma_masters_counted(nodes);
    let lacking = wanted - nodes.filter(|n: NodeView| n.flags.contains("master"@)).len();
    assert forall|i: int| 0 <= i < plan.len() implies {
        let o = match #[trigger] plan[i] {
            AdditionView::Master { ordinal } => ordinal,
            AdditionView::Replica { ordinal, .. } => ordinal,
        };
        &&& 0 <= o < total
        &&& forall|k: int|
            0 <= k < nodes.len() ==> (#[trigger] nodes[k]).hostname != sts + "-"@
                + number::written(o) + "."@ + sts + "."@ + ns + ".svc.cluster.local"@
        &&& plan[i] is Master <==> i < lacking
    } by {
        let o = plan[i].ordinal_of();
        assert(u[i] == o);
        assert(u.contains(o));
        assert forall|k: int| 0 <= k < nodes.len() implies (#[trigger] nodes[k]).hostname != sts
            + "-"@ + number::written(o) + "."@ + sts + "."@ + ns + ".svc.cluster.local"@ by {
            assert(command::host_name(sts, ns, o) =~= sts + "-"@ + number::written(o) + "."@ + sts
                + "."@ + ns + ".svc.cluster.local"@);
        }
    }
    assert forall|i: int, j: int| 0 <= i < j < plan.len() implies (match #[trigger] plan[i] {
        AdditionView::Master { ordinal } => ordinal,
        AdditionView::Replica { ordinal, .. } => ordinal,
    }) < (match #[trigger] plan[j] {
        AdditionView::Master { ordinal } => ordinal,
        AdditionView::Replica { ordinal, .. } => ordinal,
    }) by {
        assert(plan[i].ordinal_of() == u[i] && plan[j].ordinal_of() == u[j]);
    }
    assert forall|o: int|
        0 <= o < total && (forall|k: int|
            0 <= k < nodes.len() ==> (#[trigger] nodes[k]).hostname != sts + "-"@
                + #[trigger] number::written(o) + "."@ + sts + "."@ + ns
                + ".svc.cluster.local"@) implies (exists|i: int|
        0 <= i < plan.len() && (match #[trigger] plan[i] {
            AdditionView::Master { ordinal } => ordinal,
            AdditionView::Replica { ordinal, .. } => ordinal,
        }) == o) || (plan.len() >= lacking && forall|k: int|
        0 <= k < nodes.len() ==> !(#[trigger] nodes[k]).flags.contains("master"@)
            && nodes[k].master_id is None) by {
        assert(command::host_name(sts, ns, o) =~= sts + "-"@ + number::written(o) + "."@ + sts
            + "."@ + ns + ".svc.cluster.local"@);
        assert(u.contains(o));
        let i = choose|i: int| 0 <= i < u.len() && u[i] == o;
        if i < plan.len() {
            assert(plan[i].ordinal_of() == o);
        } else {
            assert(loads(nodes).dom().is_empty());
            lemma_some_join(u, m, wanted, loads(nodes));
            assert forall|k: int| 0 <= k < nodes.len() implies !(#[trigger] nodes[k]).flags.contains(
                "master"@,
            ) && nodes[k].master_id is None by {
                assert(nodes[k].is_master() == nodes[k].flags.contains("master"@));
                if nodes[k].is_master() {
                    assert(census::is_tracked(nodes, nodes[k].id));
                    assert(loads(nodes).dom().contains(nodes[k].id));
                }
                if let Some(x) = nodes[k].master_id {
                    assert(census::is_tracked(nodes, x));
                    assert(loads(nodes).dom().contains(x));
                }
            }
        }
    }
}

proof fn lemma_some_join(
    ordinals: Seq<int>,
    masters: int,
    wanted: int,
    loads: Map<Seq<char>, int>,
)
    ensures
        additions(ordinals, masters, wanted, loads).len() >= (if ordinals.len() < wanted
            - masters {
            ordinals.len() as int
        } else {
            wanted - masters
        }),
    decreases ordinals.len(),
{
    if ordinals.len() > 0 && masters < wanted {
        lemma_some_join(ordinals.skip(1), masters + 1, wanted, loads);
    }
}

proof fn lemma_unassigned_ascends(nodes: Seq<NodeView>, sts: Seq<char>, ns: Seq<char>, total: nat)
    ensures
        forall|i: int, j: int|
            0 <= i < j < unassigned(nodes, sts, ns, total).len() ==> (#[trigger] unassigned(
                nodes,
                sts,
                ns,
                total,
            )[i]) < (#[trigger] unassigned(nodes, sts, ns, total)[j]),
        forall|i: int|
            0 <= i < unassigned(nodes, sts, ns, total).len() ==> (#[trigger] unassigned(
                nodes,
                sts,
                ns,
                total,
            )[i]) < total,
    decreases total,
{
    if total > 0 {
        lemma_unassigned_ascends(nodes, sts, ns, (total - 1) as nat);
        let before = unassigned(nodes, sts, ns, (total - 1) as nat);
        let u = unassigned(nodes, sts, ns, total);
        assert forall|i: int| 0 <= i < u.len() implies (#[trigger] u[i]) < total by {
            if i < before.len() {
                assert(u[i] == before[i]);
            }
        }
        assert forall|i: int, j: int| 0 <= i < j < u.len() implies (#[trigger] u[i]) < (
        #[trigger] u[j]) by {
            assert(u[i] == before[i]);
            if j < before.len() {
                assert(u[j] == before[j]);
            }
        }
    }
}

/// The command by which a pod joins, given through the seed.
pub open spec fn addition_command(
    a: AdditionView,
    sts: Seq<char>,
    ns: Seq<char>,
    seed_pod: Seq<char>,
) -> CommandView {
    let seed = command::endpoint(command::host_of(seed_pod, sts, ns));
    let addr = command::endpoint(command::host_name(sts, ns, a.ordinal_of()));
    match a {
        AdditionView::Master { .. } => CommandView {
            pod: seed_pod,
            argv: seq!["redis-cli"@, "--cluster"@, "add-node"@, addr, seed],
        },
        AdditionView::Replica { of, .. } => CommandView {
            pod: seed_pod,
            argv: seq![
                "redis-cli"@,
                "--cluster"@,
                "add-node"@,
                addr,
                seed,
                "--cluster-slave"@,
                "--cluster-master-id"@,
                of,
            ],
        },
    }
}

/// The command that spreads slots over all masters, empty ones included.
pub open spec fn rebalance(seed_pod: Seq<char>, seed: Seq<char>) -> CommandView {
    CommandView {
        pod: seed_pod,
        argv: seq![
            "redis-cli"@,
            "--cluster"@,
            "rebalance"@,
            seed,
            "--cluster-use-empty-masters"@,
        ],
    }
}

/// The command that spreads slots over all masters, empty ones included.
pub fn rebalance_command(seed_pod: &str, seed: &str) -> (c: Command)
    ensures
        c@ == rebalance(seed_pod@, seed@),
{
    let argv: Vec<&str> = vec![
        "redis-cli",
        "--cluster",
        "rebalance",
        seed,
        "--cluster-use-empty-masters",
    ];
    assert(text::views(argv@) =~= rebalance(seed_pod@, seed@).argv);
    command::command(seed_pod, &argv)
}

/// The commands by which pods join, and then one that gives new masters their
/// slots.
pub open spec fn addition_commands(
    plan: Seq<AdditionView>,
    sts: Seq<char>,
    ns: Seq<char>,
    seed_pod: Seq<char>,
) -> Seq<CommandView> {
    let joins = plan.map_values(|a: AdditionView| addition_command(a, sts, ns, seed_pod));
    if exists|i: int| 0 <= i < plan.len() && #[trigger] plan[i] is Master {
        joins.push(rebalance(seed_pod, command::endpoint(command::host_of(seed_pod, sts, ns))))
    } else {
        joins
    }
}

/// Every planned addition becomes one command, in the order of the plan, that adds
/// the pod with that ordinal through the seed; a replica is attached to its master.
/// Slots are spread anew at the end exactly where a master joined.
pub proof fn lemma_joins_commanded(
    plan: Seq<AdditionView>,
    sts: Seq<char>,
    ns: Seq<char>,
    seed_pod: Seq<char>,
    i: int,
)
    requires
        0 <= i < plan.len(),
    ensures
        ({
            let out = addition_commands(plan, sts, ns, seed_pod);
            let seed = seed_pod + "."@ + sts + "."@ + ns + ".svc.cluster.local"@ + ":6379"@;
            let ordinal = match plan[i] {
                AdditionView::Master { ordinal } => ordinal,
                AdditionView::Replica { ordinal, .. } => ordinal,
            };
            let pod = sts + "-"@ + number::written(ordinal);
            let addr = pod + "."@ + sts + "."@ + ns + ".svc.cluster.local"@ + ":6379"@;
            let masters = exists|k: int|
                0 <= k < plan.len() && (#[trigger] plan[k]) is Master;
            &&& out.len() == plan.len() + (if masters {
                1int
            } else {
                0
            })
            &&& out[i].pod == seed_pod
            &&& plan[i] is Master ==> out[i].argv == seq![
                "redis-cli"@,
                "--cluster"@,
                "add-node"@,
                addr,
                seed,
            ]
            &&& plan[i] matches AdditionView::Replica { of, .. } ==> out[i].argv == seq![
                "redis-cli"@,
                "--cluster"@,
                "add-node"@,
                addr,
                seed,
                "--cluster-slave"@,
                "--cluster-master-id"@,
                of,
            ]
            &&& masters ==> out.last().pod == seed_pod && out.last().argv == seq![
                "redis-cli"@,
                "--cluster"@,
                "rebalance"@,
                seed,
                "--cluster-use-empty-masters"@,
            ]
        }),
{
    let out = addition_commands(plan, sts, ns, seed_pod);
    assert(out[i] == addition_command(plan[i], sts, ns, seed_pod));
    let seed = seed_pod + "."@ + sts + "."@ + ns + ".svc.cluster.local"@ + ":6379"@;
    assert(command::endpoint(command::host_of(seed_pod, sts, ns)) =~= seed);
    let o = plan[i].ordinal_of();
    assert(command::endpoint(command::host_name(sts, ns, o)) =~= sts + "-"@ + number::written(o)
        + "."@ + sts + "."@ + ns + ".svc.cluster.local"@ + ":6379"@);
}

/// A cluster is made, by the first pod, of one pod per master and one for each of
/// their replicas, in the order of ordinals.
pub proof fn lemma_made_of_all(
    sts: Seq<char>,
    ns: Seq<char>,
    masters: int,
    replicas_per_master: int,
    i: int,
)
    requires
        0 <= i < masters * (1 + replicas_per_master),
    ensures
        ({
            let argv = create_argv(
                sts,
                ns,
                redis_cluster::pod_count(masters, replicas_per_master),
                replicas_per_master,
            );
            let total = masters * (1 + replicas_per_master);
            &&& argv.len() == total + 6
            &&& argv.take(3) == seq!["redis-cli"@, "--cluster"@, "create"@]
            &&& argv[3 + i] == sts + "-"@ + number::written(i) + "."@ + sts + "."@ + ns
                + ".svc.cluster.local"@ + ":6379"@
            &&& argv.skip(total + 3) == seq![
                "--cluster-replicas"@,
                number::written(replicas_per_master),
                "--cluster-yes"@,
            ]
        }),
{
    let total = masters * (1 + replicas_per_master);
    let argv = create_argv(
        sts,
        ns,
        redis_cluster::pod_count(masters, replicas_per_master),
        replicas_per_master,
    );
    assert(argv.take(3) =~= seq!["redis-cli"@, "--cluster"@, "create"@]);
    assert(argv[3 + i] == command::endpoint(command::host_name(sts, ns, i)));
    assert(command::endpoint(command::host_name(sts, ns, i)) =~= sts + "-"@ + number::written(i)
        + "."@ + sts + "."@ + ns + ".svc.cluster.local"@ + ":6379"@);
    assert(argv.skip(total + 3) =~= seq![
        "--cluster-replicas"@,
        number::written(replicas_per_master),
        "--cluster-yes"@,
    ]);
}

/// The command by which a pod joins.
fn join_command(a: &Addition, sts_name: &str, ns: &str, seed_pod: &str, seed: &str) -> (c: Command)
    requires
        seed@ == command::endpoint(command::host_of(seed_pod@, sts_name@, ns@)),
    ensures
        c@ == addition_command(a@, sts_name@, ns@, seed_pod@),
{
    let ghost want = addition_command(a@, sts_name@, ns@, seed_pod@);
    match a {
        Addition::Master { ordinal } => {
            let addr = command::redis_endpoint(&command::pod_hostname(sts_name, ns, *ordinal));
            let argv: Vec<&str> = vec!["redis-cli", "--cluster", "add-node", addr.as_str(), seed];
            assert(text::views(argv@) =~= want.argv);
            command::command(seed_pod, &argv)
        },
        Addition::Replica { ordinal, of } => {
            let addr = command::redis_endpoint(&command::pod_hostname(sts_name, ns, *ordinal));
            let argv: Vec<&str> = vec![
                "redis-cli",
                "--cluster",
                "add-node",
                addr.as_str(),
                seed,
                "--cluster-slave",
                "--cluster-master-id",
                of.as_str(),
            ];
            assert(text::views(argv@) =~= want.argv);
            command::command(seed_pod, &argv)
        },
    }
}

/// The commands that carry out planned additions.
pub fn grow_commands(plan: &Vec<Addition>, sts_name: &str, ns: &str, seed_pod: &str) -> (out: Vec<
    Command,
>)
    ensures
        command::commands_view(out@) == addition_commands(
            additions_view(plan@),
            sts_name@,
            ns@,
            seed_pod@,
        ),
{
    let seed = command::redis_endpoint(&command::pod_fqdn(seed_pod, sts_name, ns));
    let ghost all = additions_view(plan@);
    let ghost joins = all.map_values(
        |a: AdditionView| addition_command(a, sts_name@, ns@, seed_pod@),
    );
    let mut out: Vec<Command> = Vec::new();
    let mut added_masters = false;
    let mut i: usize = 0;
    while i < plan.len()
        invariant
            i <= plan.len(),
            all == additions_view(plan@),
            seed@ == command::endpoint(command::host_of(seed_pod@, sts_name@, ns@)),
            joins == all.map_values(
                |a: AdditionView| addition_command(a, sts_name@, ns@, seed_pod@),
            ),
            command::commands_view(out@) == joins.take(i as int),
            added_masters == exists|j: int| 0 <= j < i && #[trigger] all[j] is Master,
        decreases plan.len() - i,
    {
        assert(all[i as int] == plan[i as int]@);
        let c = join_command(&plan[i], sts_name, ns, seed_pod, &seed);
        proof {
            command::lemma_commands_push(out@, c);
            assert(joins.take(i + 1) =~= joins.take(i as int).push(c@));
        }
        out.push(c);
        match &plan[i] {
            Addition::Master { .. } => {
                added_masters = true;
                assert(all[i as int] is Master);
            },
            Addition::Replica { .. } => {},
        }
        i = i + 1;
    }
    assert(joins.take(i as int) =~= joins);
    if added_masters {
        let c = rebalance_command(seed_pod, &seed);
        proof {
            command::lemma_commands_push(out@, c);
        }
        out.push(c);
    }
    out
}

} // verus!
