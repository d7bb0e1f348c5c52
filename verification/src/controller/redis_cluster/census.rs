//! Counts over a node table.

use vstd::prelude::*;

use super::table;
use super::table::{ClusterNode, NodeView};
use crate::text;

verus! {

/// The number of masters.
pub open spec fn master_count(nodes: Seq<NodeView>) -> int
    decreases nodes.len(),
{
    if nodes.len() == 0 {
        0
    } else {
        master_count(nodes.drop_last()) + (if nodes.last().is_master() {
            1int
        } else {
            0
        })
    }
}

/// The number of nodes that replicate `id`.
pub open spec fn replica_count(nodes: Seq<NodeView>, id: Seq<char>) -> int
    decreases nodes.len(),
{
    if nodes.len() == 0 {
        0
    } else {
        replica_count(nodes.drop_last(), id) + (if nodes.last().master_id == Some(id) {
            1int
        } else {
            0
        })
    }
}

/// The number of slots that masters own.
pub open spec fn assigned_slots(nodes: Seq<NodeView>) -> int
    decreases nodes.len(),
{
    if nodes.len() == 0 {
        0
    } else {
        assigned_slots(nodes.drop_last()) + (if nodes.last().is_master() {
            table::slot_sum(nodes.last().slots)
        } else {
            0
        })
    }
}

/// `ids` with `id` in it.
pub open spec fn with_id(ids: Seq<Seq<char>>, id: Seq<char>) -> Seq<Seq<char>> {
    if ids.contains(id) {
        ids
    } else {
        ids.push(id)
    }
}

/// The masters that a table speaks of, each once: those that it lists, and
/// those that a node in it replicates.
pub open spec fn tracked_ids(nodes: Seq<NodeView>) -> Seq<Seq<char>>
    decreases nodes.len(),
{
    if nodes.len() == 0 {
        Seq::empty()
    } else {
        let n = nodes.last();
        let ids = tracked_ids(nodes.drop_last());
        let listed = if n.is_master() {
            with_id(ids, n.id)
        } else {
            ids
        };
        match n.master_id {
            Some(m) => with_id(listed, m),
            None => listed,
        }
    }
}

/// Whether a table speaks of `id` as a master.
pub open spec fn is_tracked(nodes: Seq<NodeView>, id: Seq<char>) -> bool {
    exists|i: int|
        0 <= i < nodes.len() && (((#[trigger] nodes[i]).is_master() && nodes[i].id == id)
            || nodes[i].master_id == Some(id))
}

/// How far the masters `ids` are from `wanted` replicas, summed.
pub open spec fn deviation(nodes: Seq<NodeView>, ids: Seq<Seq<char>>, wanted: int) -> int
    decreases ids.len(),
{
    if ids.len() == 0 {
        0
    } else {
        let d = replica_count(nodes, ids.last()) - wanted;
        deviation(nodes, ids.drop_last(), wanted) + (if d >= 0 {
            d
        } else {
            -d
        })
    }
}

/// How far all masters are from `wanted` replicas, summed.
pub open spec fn imbalance(nodes: Seq<NodeView>, wanted: int) -> int {
    deviation(nodes, tracked_ids(nodes), wanted)
}

/// Whether the slots of every master can be counted.
pub open spec fn masters_countable(nodes: Seq<NodeView>) -> bool {
    forall|i: int|
        0 <= i < nodes.len() && (#[trigger] nodes[i]).is_master() ==> table::ranges_ok(
            nodes[i].slots,
        )
}

/// Whether everything that is counted of a table fits its type.
pub open spec fn countable(nodes: Seq<NodeView>, wanted: int) -> bool {
    &&& nodes.len() <= i32::MAX
    &&& masters_countable(nodes)
    &&& assigned_slots(nodes) <= i32::MAX
    &&& imbalance(nodes, wanted) <= i32::MAX
}

/// Each master is tracked once.
pub proof fn lemma_tracked_ids(nodes: Seq<NodeView>)
    ensures
        tracked_ids(nodes).no_duplicates(),
        forall|id: Seq<char>| #[trigger] tracked_ids(nodes).contains(id) <==> is_tracked(nodes, id),
    decreases nodes.len(),
{
    if nodes.len() > 0 {
        let rest = nodes.drop_last();
        let n = nodes.last();
        lemma_tracked_ids(rest);
        let ids = tracked_ids(rest);
        let listed = if n.is_master() {
            with_id(ids, n.id)
        } else {
            ids
        };
        let all = tracked_ids(nodes);
        assert forall|id: Seq<char>| #[trigger] all.contains(id) <==> is_tracked(nodes, id) by {
            if is_tracked(rest, id) {
                let i = choose|i: int|
                    0 <= i < rest.len() && (((#[trigger] rest[i]).is_master() && rest[i].id == id)
                        || rest[i].master_id == Some(id));
                assert(nodes[i] == rest[i]);
                assert(is_tracked(nodes, id));
                assert(ids.contains(id));
            }
            assert(ids.contains(id) <==> is_tracked(rest, id));
            assert(listed.contains(id) <==> ids.contains(id) || (n.is_master() && n.id == id)) by {
                if n.is_master() && !ids.contains(n.id) {
                    lemma_push_contains(ids, n.id, id);
                }
            }
            assert(all.contains(id) <==> listed.contains(id) || n.master_id == Some(id)) by {
                if n.master_id is Some && !listed.contains(n.master_id->0) {
                    lemma_push_contains(listed, n.master_id->0, id);
                }
            }
            if is_tracked(nodes, id) {
                let i = choose|i: int|
                    0 <= i < nodes.len() && (((#[trigger] nodes[i]).is_master() && nodes[i].id
                        == id) || nodes[i].master_id == Some(id));
                if i < rest.len() {
                    assert(rest[i] == nodes[i]);
                    assert(is_tracked(rest, id));
                }
            }
            assert(nodes[nodes.len() - 1] == n);
        }
    }
}

proof fn lemma_push_contains(ids: Seq<Seq<char>>, a: Seq<char>, id: Seq<char>)
    ensures
        ids.push(a).contains(id) <==> ids.contains(id) || a == id,
{
    if ids.contains(id) {
        let i = choose|i: int| 0 <= i < ids.len() && ids[i] == id;
        assert(ids.push(a)[i] == id);
    }
    assert(ids.push(a)[ids.len() as int] == a);
}

/// A table in which every tracked master has exactly the wanted replicas is the
/// only one without imbalance.
pub proof fn lemma_no_imbalance(nodes: Seq<NodeView>, wanted: int)
    ensures
        imbalance(nodes, wanted) >= 0,
        imbalance(nodes, wanted) == 0 <==> forall|id: Seq<char>| #[trigger]
            is_tracked(nodes, id) ==> replica_count(nodes, id) == wanted,
{
    lemma_tracked_ids(nodes);
    let ids = tracked_ids(nodes);
    lemma_deviation(nodes, ids, wanted);
    if imbalance(nodes, wanted) == 0 {
        assert forall|id: Seq<char>| #[trigger] is_tracked(nodes, id) implies replica_count(
            nodes,
            id,
        ) == wanted by {
            assert(ids.contains(id));
        }
    } else {
        let k = choose|k: int| 0 <= k < ids.len() && replica_count(nodes, #[trigger] ids[k]) != wanted;
        assert(ids.contains(ids[k]));
        assert(is_tracked(nodes, ids[k]));
    }
}

proof fn lemma_deviation(nodes: Seq<NodeView>, ids: Seq<Seq<char>>, wanted: int)
    ensures
        deviation(nodes, ids, wanted) >= 0,
        deviation(nodes, ids, wanted) == 0 <==> forall|k: int|
            0 <= k < ids.len() ==> replica_count(nodes, #[trigger] ids[k]) == wanted,
    decreases ids.len(),
{
    if ids.len() > 0 {
        let rest = ids.drop_last();
        lemma_deviation(nodes, rest, wanted);
        if deviation(nodes, ids, wanted) == 0 {
            assert forall|k: int| 0 <= k < ids.len() implies replica_count(nodes, #[trigger] ids[k])
                == wanted by {
                if k < rest.len() {
                    assert(rest[k] == ids[k]);
                }
            }
        } else if forall|k: int|
            0 <= k < ids.len() ==> replica_count(nodes, #[trigger] ids[k]) == wanted {
            assert forall|k: int| 0 <= k < rest.len() implies replica_count(
                nodes,
                #[trigger] rest[k],
            ) == wanted by {
                assert(rest[k] == ids[k]);
            }
            assert(ids[ids.len() - 1] == ids.last());
        }
    }
}

proof fn lemma_deviation_grows(nodes: Seq<NodeView>, ids: Seq<Seq<char>>, wanted: int, k: int)
    requires
        0 <= k <= ids.len(),
    ensures
        0 <= deviation(nodes, ids.take(k), wanted) <= deviation(nodes, ids, wanted),
    decreases ids.len(),
{
    lemma_deviation(nodes, ids.take(k), wanted);
    if k == ids.len() {
        assert(ids.take(k) =~= ids);
    } else {
        lemma_deviation_grows(nodes, ids.drop_last(), wanted, k);
        assert(ids.drop_last().take(k) =~= ids.take(k));
    }
}

pub proof fn lemma_counts_bounded(nodes: Seq<NodeView>, id: Seq<char>)
    ensures
        0 <= replica_count(nodes, id) <= nodes.len(),
        0 <= master_count(nodes) <= nodes.len(),
    decreases nodes.len(),
{
    if nodes.len() > 0 {
        lemma_counts_bounded(nodes.drop_last(), id);
    }
}

proof fn lemma_slots_nonnegative(nodes: Seq<NodeView>, k: int)
    requires
        0 <= k <= nodes.len(),
        masters_countable(nodes),
    ensures
        0 <= assigned_slots(nodes.take(k)) <= assigned_slots(nodes),
    decreases nodes.len(),
{
    if nodes.len() > 0 {
        let l = nodes.len() - 1;
        if nodes[l].is_master() {
            table::lemma_slot_sum_grows(nodes[l].slots, 0);
        }
        let rest = nodes.drop_last();
        assert(masters_countable(rest)) by {
            assert forall|i: int|
                0 <= i < rest.len() && (#[trigger] rest[i]).is_master() implies table::ranges_ok(
                rest[i].slots,
            ) by {
                assert(rest[i] == nodes[i]);
            }
        }
        if k == nodes.len() {
            lemma_slots_nonnegative(rest, k - 1);
            assert(nodes.take(k) =~= nodes);
            assert(rest.take(k - 1) =~= rest);
        } else {
            lemma_slots_nonnegative(rest, k);
            assert(rest.take(k) =~= nodes.take(k));
        }
    } else {
        assert(nodes.take(k) =~= nodes);
    }
}

/// No master owns more slots than all masters together.
pub proof fn lemma_slots_of_one(nodes: Seq<NodeView>, k: int)
    requires
        0 <= k < nodes.len(),
        masters_countable(nodes),
    ensures
        nodes[k].is_master() ==> table::slot_sum(nodes[k].slots) <= assigned_slots(nodes),
{
    lemma_slots_nonnegative(nodes, k);
    lemma_slots_nonnegative(nodes, k + 1);
    assert(nodes.take(k + 1).drop_last() =~= nodes.take(k));
}

/// The replicas of `id` are the nodes that name it as their master.
pub proof fn lemma_replicas_counted(nodes: Seq<NodeView>, id: Seq<char>)
    ensures
        replica_count(nodes, id) == nodes.filter(|n: NodeView| n.master_id == Some(id)).len(),
    decreases nodes.len(),
{
    reveal(Seq::filter);
    if nodes.len() > 0 {
        lemma_replicas_counted(nodes.drop_last(), id);
    }
}

/// The masters are the nodes that carry the flag `master`.
pub proof fn lemma_masters_counted(nodes: Seq<NodeView>)
    ensures
        master_count(nodes) == nodes.filter(|n: NodeView| n.flags.contains("master"@)).len(),
    decreases nodes.len(),
{
    reveal(Seq::filter);
    if nodes.len() > 0 {
        lemma_masters_counted(nodes.drop_last());
    }
}

/// The slots that are assigned are those of the masters, one master after the
/// other and range by range, both ends of a range counted.
pub proof fn lemma_slots_counted(nodes: Seq<NodeView>)
    ensures
        assigned_slots(nodes) == nodes.filter(
            |n: NodeView| n.flags.contains("master"@),
        ).fold_left(
            0int,
            |sum: int, n: NodeView|
                sum + n.slots.fold_left(0int, |c: int, r: (u16, u16)| c + (r.1 - r.0 + 1)),
        ),
    decreases nodes.len(),
{
    let p = |n: NodeView| n.flags.contains("master"@);
    let f = |sum: int, n: NodeView|
        sum + n.slots.fold_left(0int, |c: int, r: (u16, u16)| c + (r.1 - r.0 + 1));
    reveal(Seq::filter);
    if nodes.len() > 0 {
        let rest = nodes.drop_last();
        lemma_slots_counted(rest);
        table::lemma_slots_summed(nodes.last().slots);
        if p(nodes.last()) {
            let all = nodes.filter(p);
            assert(all.drop_last() =~= rest.filter(p));
            assert(all.last() == nodes.last());
            assert(all.fold_left(0int, f) == f(rest.filter(p).fold_left(0int, f), nodes.last()));
        }
    }
}

/// How far one master is from `wanted` replicas.
spec fn off_by(nodes: Seq<NodeView>, id: Seq<char>, wanted: int) -> int {
    let d = replica_count(nodes, id) - wanted;
    if d >= 0 {
        d
    } else {
        -d
    }
}

proof fn lemma_deviation_remove(
    nodes: Seq<NodeView>,
    ids: Seq<Seq<char>>,
    wanted: int,
    j: int,
)
    requires
        0 <= j < ids.len(),
    ensures
        deviation(nodes, ids, wanted) == deviation(nodes, ids.remove(j), wanted) + off_by(
            nodes,
            ids[j],
            wanted,
        ),
    decreases ids.len(),
{
    if j == ids.len() - 1 {
        assert(ids.remove(j) =~= ids.drop_last());
    } else {
        lemma_deviation_remove(nodes, ids.drop_last(), wanted, j);
        let rest = ids.remove(j);
        assert(rest.drop_last() =~= ids.drop_last().remove(j));
        assert(rest.last() == ids.last());
    }
}

proof fn lemma_deviation_permuted(
    nodes: Seq<NodeView>,
    a: Seq<Seq<char>>,
    b: Seq<Seq<char>>,
    wanted: int,
)
    requires
        a.no_duplicates(),
        b.no_duplicates(),
        forall|id: Seq<char>| #[trigger] a.contains(id) <==> b.contains(id),
    ensures
        deviation(nodes, a, wanted) == deviation(nodes, b, wanted),
    decreases a.len(),
{
    if a.len() == 0 {
        if b.len() > 0 {
            assert(b.contains(b[0]));
            assert(a.contains(b[0]));
        }
    } else {
        let x = a.last();
        assert(a[a.len() - 1] == x);
        assert(a.contains(x));
        let j = choose|j: int| 0 <= j < b.len() && b[j] == x;
        let a0 = a.drop_last();
        let b0 = b.remove(j);
        lemma_deviation_remove(nodes, b, wanted, j);
        assert(a0.no_duplicates());
        assert(b0.no_duplicates());
        assert forall|id: Seq<char>| #[trigger] a0.contains(id) <==> b0.contains(id) by {
            if a0.contains(id) {
                let i = choose|i: int| 0 <= i < a0.len() && a0[i] == id;
                assert(a[i] == id);
                assert(a.contains(id));
                let k = choose|k: int| 0 <= k < b.len() && b[k] == id;
                assert(k != j);
                if k < j {
                    assert(b0[k] == id);
                } else {
                    assert(b0[k - 1] == id);
                }
            }
            if b0.contains(id) {
                let k = choose|k: int| 0 <= k < b0.len() && b0[k] == id;
                let l = if k < j {
                    k
                } else {
                    k + 1
                };
                assert(b[l] == id);
                assert(b.contains(id));
                assert(a.contains(id));
                let i = choose|i: int| 0 <= i < a.len() && a[i] == id;
                assert(a0[i] == id);
            }
        }
        lemma_deviation_permuted(nodes, a0, b0, wanted);
    }
}

proof fn lemma_deviation_folded(nodes: Seq<NodeView>, ids: Seq<Seq<char>>, wanted: int)
    ensures
        deviation(nodes, ids, wanted) == ids.fold_left(
            0int,
            |sum: int, id: Seq<char>|
                {
                    let c = nodes.filter(|n: NodeView| n.master_id == Some(id)).len();
                    sum + (if c >= wanted {
                        c - wanted
                    } else {
                        wanted - c
                    })
                },
        ),
    decreases ids.len(),
{
    if ids.len() > 0 {
        lemma_deviation_folded(nodes, ids.drop_last(), wanted);
        lemma_replicas_counted(nodes, ids.last());
    }
}

/// However the masters are listed, as long as each that the table lists or that a
/// node replicates is listed once, the imbalance is the sum of how far each is
/// from `wanted` replicas.
pub proof fn lemma_imbalance_sums(nodes: Seq<NodeView>, wanted: int, ids: Seq<Seq<char>>)
    requires
        ids.no_duplicates(),
        forall|id: Seq<char>| #[trigger]
            ids.contains(id) <==> exists|i: int|
                0 <= i < nodes.len() && (((#[trigger] nodes[i]).flags.contains("master"@)
                    && nodes[i].id == id) || nodes[i].master_id == Some(id)),
    ensures
        imbalance(nodes, wanted) == ids.fold_left(
            0int,
            |sum: int, id: Seq<char>|
                {
                    let c = nodes.filter(|n: NodeView| n.master_id == Some(id)).len();
                    sum + (if c >= wanted {
                        c - wanted
                    } else {
                        wanted - c
                    })
                },
        ),
{
    lemma_tracked_ids(nodes);
    let t = tracked_ids(nodes);
    assert forall|id: Seq<char>| #[trigger] t.contains(id) <==> ids.contains(id) by {
        if is_tracked(nodes, id) {
            let i = choose|i: int|
                0 <= i < nodes.len() && (((#[trigger] nodes[i]).is_master() && nodes[i].id == id)
                    || nodes[i].master_id == Some(id));
            assert(nodes[i].is_master() == nodes[i].flags.contains("master"@));
        }
        if ids.contains(id) {
            let i = choose|i: int|
                0 <= i < nodes.len() && (((#[trigger] nodes[i]).flags.contains("master"@)
                    && nodes[i].id == id) || nodes[i].master_id == Some(id));
            assert(nodes[i].is_master() == nodes[i].flags.contains("master"@));
        }
    }
    lemma_deviation_permuted(nodes, t, ids, wanted);
    lemma_deviation_folded(nodes, ids, wanted);
}

/// The number of masters.
pub fn count_masters(nodes: &Vec<ClusterNode>) -> (n: usize)
    ensures
        n == master_count(table::nodes_view(nodes@)),
{
    let ghost all = table::nodes_view(nodes@);
    let mut n: usize = 0;
    let mut i: usize = 0;
    assert(all.take(0) =~= Seq::<NodeView>::empty());
    while i < nodes.len()
        invariant
            i <= nodes.len(),
            all == table::nodes_view(nodes@),
            n <= i,
            n == master_count(all.take(i as int)),
        decreases nodes.len() - i,
    {
        proof {
            assert(all.take(i + 1).drop_last() =~= all.take(i as int));
            assert(all.take(i + 1).last() == nodes[i as int]@);
        }
        if nodes[i].is_master() {
            n = n + 1;
        }
        i = i + 1;
    }
    assert(all.take(i as int) =~= all);
    n
}

/// Whether `node` replicates `id`.
pub fn replicates(node: &ClusterNode, id: &str) -> (b: bool)
    ensures
        b == (node@.master_id == Some(id@)),
{
    match &node.master_id {
        Some(m) => text::same(m, id),
        None => false,
    }
}

/// The number of nodes that replicate `id`.
pub fn count_replicas(nodes: &Vec<ClusterNode>, id: &str) -> (n: usize)
    ensures
        n == replica_count(table::nodes_view(nodes@), id@),
{
    let ghost all = table::nodes_view(nodes@);
    let mut n: usize = 0;
    let mut i: usize = 0;
    assert(all.take(0) =~= Seq::<NodeView>::empty());
    while i < nodes.len()
        invariant
            i <= nodes.len(),
            all == table::nodes_view(nodes@),
            n <= i,
            n == replica_count(all.take(i as int), id@),
        decreases nodes.len() - i,
    {
        proof {
            assert(all.take(i + 1).drop_last() =~= all.take(i as int));
            assert(all.take(i + 1).last() == nodes[i as int]@);
        }
        if replicates(&nodes[i], id) {
            n = n + 1;
        }
        i = i + 1;
    }
    assert(all.take(i as int) =~= all);
    n
}

/// The number of slots that masters own.
pub fn count_slots(nodes: &Vec<ClusterNode>) -> (n: i32)
    requires
        masters_countable(table::nodes_view(nodes@)),
        assigned_slots(table::nodes_view(nodes@)) <= i32::MAX,
    ensures
        n == assigned_slots(table::nodes_view(nodes@)),
{
    let ghost all = table::nodes_view(nodes@);
    let mut n: i32 = 0;
    let mut i: usize = 0;
    assert(all.take(0) =~= Seq::<NodeView>::empty());
    while i < nodes.len()
        invariant
            i <= nodes.len(),
            all == table::nodes_view(nodes@),
            masters_countable(all),
            assigned_slots(all) <= i32::MAX,
            0 <= n == assigned_slots(all.take(i as int)),
        decreases nodes.len() - i,
    {
        proof {
            assert(all.take(i + 1).drop_last() =~= all.take(i as int));
            assert(all.take(i + 1).last() == nodes[i as int]@);
            assert(all[i as int] == nodes[i as int]@);
            lemma_slots_nonnegative(all, i + 1);
            if all[i as int].is_master() {
                table::lemma_slot_sum_grows(nodes[i as int].slots@, 0);
            }
        }
        if nodes[i].is_master() {
            n = n + nodes[i].slot_count() as i32;
        }
        i = i + 1;
    }
    assert(all.take(i as int) =~= all);
    n
}

/// Adds `id` to `ids` where it is not there yet.
fn add_id(ids: &mut Vec<String>, id: &str)
    ensures
        text::owned_views(final(ids)@) == with_id(text::owned_views(old(ids)@), id@),
{
    let ghost v = text::owned_views(ids@);
    let mut i: usize = 0;
    while i < ids.len()
        invariant
            i <= ids.len(),
            v == text::owned_views(ids@),
            ids@ == old(ids)@,
            forall|j: int| 0 <= j < i ==> v[j] != id@,
        decreases ids.len() - i,
    {
        if text::same(&ids[i], id) {
            assert(v[i as int] == id@);
            return;
        }
        i = i + 1;
    }
    assert(!v.contains(id@));
    ids.push(id.to_string());
    assert(text::owned_views(ids@) =~= v.push(id@));
}

/// The masters that a table speaks of.
pub fn tracked_masters(nodes: &Vec<ClusterNode>) -> (ids: Vec<String>)
    ensures
        text::owned_views(ids@) == tracked_ids(table::nodes_view(nodes@)),
{
    let ghost all = table::nodes_view(nodes@);
    let mut ids: Vec<String> = Vec::new();
    let mut i: usize = 0;
    assert(text::owned_views(ids@) =~= tracked_ids(all.take(0)));
    while i < nodes.len()
        invariant
            i <= nodes.len(),
            all == table::nodes_view(nodes@),
            text::owned_views(ids@) == tracked_ids(all.take(i as int)),
        decreases nodes.len() - i,
    {
        proof {
            assert(all.take(i + 1).drop_last() =~= all.take(i as int));
            assert(all.take(i + 1).last() == nodes[i as int]@);
        }
        if nodes[i].is_master() {
            add_id(&mut ids, &nodes[i].id);
        }
        match &nodes[i].master_id {
            Some(m) => {
                add_id(&mut ids, m);
            },
            None => {},
        }
        i = i + 1;
    }
    assert(all.take(i as int) =~= all);
    ids
}

/// How far all masters are from `wanted` replicas, summed.
pub fn replica_imbalance(nodes: &Vec<ClusterNode>, wanted: i32) -> (n: i32)
    requires
        nodes.len() <= i32::MAX,
        imbalance(table::nodes_view(nodes@), wanted as int) <= i32::MAX,
    ensures
        n == imbalance(table::nodes_view(nodes@), wanted as int),
{
    let ghost all = table::nodes_view(nodes@);
    let ids = tracked_masters(nodes);
    let ghost keys = text::owned_views(ids@);
    let mut n: i32 = 0;
    let mut i: usize = 0;
    assert(keys.take(0) =~= Seq::<Seq<char>>::empty());
    while i < ids.len()
        invariant
            i <= ids.len(),
            all == table::nodes_view(nodes@),
            all.len() <= i32::MAX,
            keys == text::owned_views(ids@),
            deviation(all, keys, wanted as int) <= i32::MAX,
            n == deviation(all, keys.take(i as int), wanted as int),
            n >= 0,
        decreases ids.len() - i,
    {
        let c: usize = count_replicas(nodes, &ids[i]);
        proof {
            lemma_counts_bounded(all, ids[i as int]@);
            assert(keys.take(i + 1).drop_last() =~= keys.take(i as int));
            assert(keys.take(i + 1).last() == ids[i as int]@);
            lemma_deviation_grows(all, keys, wanted as int, i + 1);
        }
        let d: i64 = c as i64 - wanted as i64;
        let off: i64 = if d >= 0 {
            d
        } else {
            -d
        };
        n = (n as i64 + off) as i32;
        i = i + 1;
    }
    assert(keys.take(i as int) =~= keys);
    n
}

/// Whether everything that is counted of a table fits its type.
pub fn is_countable(nodes: &Vec<ClusterNode>, wanted: i32) -> (b: bool)
    ensures
        b == countable(table::nodes_view(nodes@), wanted as int),
{
    let ghost all = table::nodes_view(nodes@);
    if nodes.len() > i32::MAX as usize {
        return false;
    }
    let mut slots: i64 = 0;
    let mut i: usize = 0;
    assert(all.take(0) =~= Seq::<NodeView>::empty());
    while i < nodes.len()
        invariant
            i <= nodes.len(),
            all == table::nodes_view(nodes@),
            all.len() <= i32::MAX,
            forall|j: int|
                0 <= j < i && (#[trigger] all[j]).is_master() ==> table::ranges_ok(all[j].slots),
            0 <= slots <= i32::MAX,
            slots == assigned_slots(all.take(i as int)),
        decreases nodes.len() - i,
    {
        assert(all[i as int] == nodes[i as int]@);
        proof {
            assert(all.take(i + 1).drop_last() =~= all.take(i as int));
            assert(all.take(i + 1).last() == nodes[i as int]@);
        }
        if nodes[i].is_master() {
            if !nodes[i].slots_countable() {
                assert(!table::ranges_ok(all[i as int].slots));
                return false;
            }
            proof {
                table::lemma_slot_sum_grows(nodes[i as int].slots@, 0);
            }
            slots = slots + nodes[i].slot_count() as i64;
        }
        if slots > i32::MAX as i64 {
            proof {
                if countable(all, wanted as int) {
                    lemma_slots_nonnegative(all, i + 1);
                }
            }
            return false;
        }
        i = i + 1;
    }
    assert(all.take(i as int) =~= all);
    let ids = tracked_masters(nodes);
    let ghost keys = text::owned_views(ids@);
    let mut n: i64 = 0;
    let mut k: usize = 0;
    assert(keys.take(0) =~= Seq::<Seq<char>>::empty());
    while k < ids.len()
        invariant
            k <= ids.len(),
            all == table::nodes_view(nodes@),
            all.len() <= i32::MAX,
            keys == text::owned_views(ids@),
            keys == tracked_ids(all),
            n == deviation(all, keys.take(k as int), wanted as int),
            0 <= n <= i32::MAX,
        decreases ids.len() - k,
    {
        let c: usize = count_replicas(nodes, &ids[k]);
        proof {
            lemma_counts_bounded(all, ids[k as int]@);
            assert(keys.take(k + 1).drop_last() =~= keys.take(k as int));
            assert(keys.take(k + 1).last() == ids[k as int]@);
            lemma_deviation_grows(all, keys, wanted as int, k + 1);
        }
        let d: i64 = c as i64 - wanted as i64;
        let off: i64 = if d >= 0 {
            d
        } else {
            -d
        };
        n = n + off;
        if n > i32::MAX as i64 {
            return false;
        }
        k = k + 1;
    }
    assert(keys.take(k as int) =~= keys);
    true
}

} // verus!
