//! Which pod to ask about the cluster, and to give commands through.

use vstd::prelude::*;

use super::command;
use super::command::{Command, CommandView};
use super::table::ClusterInfo;
use crate::text;

verus! {

/// Whether a pod that answered is a member of a formed cluster: it knows of more
/// nodes than itself.
pub open spec fn is_member(reply: Option<ClusterInfo>) -> bool {
    reply matches Some(info) && info.cluster_known_nodes > 1
}

/// Whether a member sees the cluster as ok. One that is cut off still counts all
/// nodes, but sees them as failing.
pub open spec fn is_healthy(reply: Option<ClusterInfo>) -> bool {
    is_member(reply) && reply->0.cluster_state@ == "ok"@
}

/// The first healthy member among `replies`; their number where there is none.
pub open spec fn first_healthy(replies: Seq<Option<ClusterInfo>>) -> int
    decreases replies.len(),
{
    if replies.len() == 0 || is_healthy(replies[0]) {
        0
    } else {
        1 + first_healthy(replies.skip(1))
    }
}

/// The first member among `replies`; their number where there is none.
pub open spec fn first_member(replies: Seq<Option<ClusterInfo>>) -> int
    decreases replies.len(),
{
    if replies.len() == 0 || is_member(replies[0]) {
        0
    } else {
        1 + first_member(replies.skip(1))
    }
}

/// The next step of the search for a seed.
#[derive(Debug, PartialEq, Eq)]
pub enum SeedStep {
    /// Ask the pod with this ordinal for its cluster state.
    Ask { ordinal: usize },
    /// The pod with this ordinal is the seed.
    Found { ordinal: usize },
    /// No pod is a member of a formed cluster.
    Absent,
}

/// The seed among `total` pods once those with an entry in `replies` were asked:
/// the first one that is healthy, and failing that the first member. All are
/// asked before one that is not healthy is taken. That the first pod is not
/// privileged matters: should it lose its state, a formed cluster would look as
/// if it had never been made.
pub open spec fn seed_step(replies: Seq<Option<ClusterInfo>>, total: int) -> SeedStep {
    let healthy = first_healthy(replies);
    let member = first_member(replies);
    if healthy < replies.len() {
        SeedStep::Found { ordinal: healthy as usize }
    } else if replies.len() < total {
        SeedStep::Ask { ordinal: replies.len() as usize }
    } else if member < replies.len() {
        SeedStep::Found { ordinal: member as usize }
    } else {
        SeedStep::Absent
    }
}

proof fn lemma_first_healthy(replies: Seq<Option<ClusterInfo>>, k: int)
    requires
        0 <= k <= replies.len(),
        forall|j: int| 0 <= j < k ==> !is_healthy(#[trigger] replies[j]),
        k < replies.len() ==> is_healthy(replies[k]),
    ensures
        first_healthy(replies) == k,
    decreases k,
{
    if k > 0 {
        let rest = replies.skip(1);
        assert(!is_healthy(replies[0]));
        assert forall|j: int| 0 <= j < k - 1 implies !is_healthy(#[trigger] rest[j]) by {
            assert(rest[j] == replies[j + 1]);
        }
        lemma_first_healthy(rest, k - 1);
    }
}

proof fn lemma_first_member(replies: Seq<Option<ClusterInfo>>, k: int)
    requires
        0 <= k <= replies.len(),
        forall|j: int| 0 <= j < k ==> !is_member(#[trigger] replies[j]),
        k < replies.len() ==> is_member(replies[k]),
    ensures
        first_member(replies) == k,
    decreases k,
{
    if k > 0 {
        let rest = replies.skip(1);
        assert(!is_member(replies[0]));
        assert forall|j: int| 0 <= j < k - 1 implies !is_member(#[trigger] rest[j]) by {
            assert(rest[j] == replies[j + 1]);
        }
        lemma_first_member(rest, k - 1);
    }
}

/// Decides how the search for a seed goes on. `replies` has one entry per pod
/// that was asked, in the order of ordinals; nothing for one that did not answer.
pub fn find_seed(replies: &Vec<Option<ClusterInfo>>, total: i32) -> (step: SeedStep)
    ensures
        step == seed_step(replies@, total as int),
{
    let n: usize = replies.len();
    let mut member: usize = n;
    let mut i: usize = 0;
    while i < n
        invariant
            n == replies.len(),
            i <= n,
            forall|j: int| 0 <= j < i ==> !is_healthy(#[trigger] replies@[j]),
            member < n ==> member < i && is_member(replies@[member as int]),
            member <= n,
            forall|j: int|
                0 <= j < i && (member == n || j < member) ==> !is_member(#[trigger] replies@[j]),
        decreases n - i,
    {
        match &replies[i] {
            Some(info) => {
                if info.cluster_known_nodes > 1 {
                    if text::same(&info.cluster_state, "ok") {
                        proof {
                            assert(is_healthy(replies@[i as int]));
                            lemma_first_healthy(replies@, i as int);
                        }
                        return SeedStep::Found { ordinal: i };
                    }
                    if member == n {
                        assert(is_member(replies@[i as int]));
                        member = i;
                    }
                }
            },
            None => {},
        }
        i = i + 1;
    }
    proof {
        lemma_first_healthy(replies@, n as int);
        lemma_first_member(replies@, member as int);
    }
    if total > 0 && n < total as usize {
        SeedStep::Ask { ordinal: n }
    } else if member < n {
        SeedStep::Found { ordinal: member }
    } else {
        SeedStep::Absent
    }
}

/// A pod that is found is one that was asked and is a member; it is a healthy
/// one where any is.
pub proof fn lemma_seed_found(replies: Seq<Option<ClusterInfo>>, total: int)
    requires
        replies.len() <= usize::MAX,
        seed_step(replies, total) is Found,
    ensures
        ({
            let k = seed_step(replies, total)->Found_ordinal;
            &&& 0 <= k < replies.len()
            &&& is_member(replies[k as int])
            &&& (exists|j: int| 0 <= j < replies.len() && is_healthy(#[trigger] replies[j]))
                ==> is_healthy(replies[k as int])
        }),
{
    lemma_first_healthy_found(replies);
    lemma_first_member_found(replies);
}

proof fn lemma_first_healthy_found(replies: Seq<Option<ClusterInfo>>)
    ensures
        0 <= first_healthy(replies) <= replies.len(),
        first_healthy(replies) < replies.len() ==> is_healthy(replies[first_healthy(replies)]),
        forall|j: int|
            0 <= j < replies.len() && is_healthy(#[trigger] replies[j]) ==> first_healthy(replies)
                <= j,
    decreases replies.len(),
{
    if replies.len() > 0 && !is_healthy(replies[0]) {
        let rest = replies.skip(1);
        lemma_first_healthy_found(rest);
        assert forall|j: int| 0 <= j < replies.len() && is_healthy(#[trigger] replies[j])
            implies first_healthy(replies) <= j by {
            assert(rest[j - 1] == replies[j]);
        }
    }
}

proof fn lemma_first_member_found(replies: Seq<Option<ClusterInfo>>)
    ensures
        0 <= first_member(replies) <= replies.len(),
        first_member(replies) < replies.len() ==> is_member(replies[first_member(replies)]),
    decreases replies.len(),
{
    if replies.len() > 0 && !is_member(replies[0]) {
        lemma_first_member_found(replies.skip(1));
    }
}

/// The command that asks a pod for its cluster state.
pub open spec fn info_command(pod: Seq<char>) -> CommandView {
    CommandView { pod, argv: seq!["redis-cli"@, "cluster"@, "info"@] }
}

/// The command that asks a pod for its node table.
pub open spec fn nodes_command(pod: Seq<char>) -> CommandView {
    CommandView { pod, argv: seq!["redis-cli"@, "cluster"@, "nodes"@] }
}

/// The command that asks a pod for its cluster state.
pub fn cluster_info(pod: &str) -> (c: Command)
    ensures
        c@ == info_command(pod@),
{
    let argv: Vec<&str> = vec!["redis-cli", "cluster", "info"];
    assert(text::views(argv@) =~= info_command(pod@).argv);
    command::command(pod, &argv)
}

/// The command that asks a pod for its node table.
pub fn cluster_nodes(pod: &str) -> (c: Command)
    ensures
        c@ == nodes_command(pod@),
{
    let argv: Vec<&str> = vec!["redis-cli", "cluster", "nodes"];
    assert(text::views(argv@) =~= nodes_command(pod@).argv);
    command::command(pod, &argv)
}

/// The search ends at the first pod that knows of other nodes and sees the cluster as
/// ok. While there is none, every pod is asked, one after the other. If there is
/// none after all were asked, it ends at the first pod that knows of other nodes at
/// all, and without a seed where there is no such pod.
pub proof fn lemma_seed_search(replies: Seq<Option<ClusterInfo>>, total: int)
    requires
        replies.len() <= usize::MAX,
    ensures
        match seed_step(replies, total) {
            SeedStep::Ask { ordinal } => {
                &&& ordinal == replies.len() < total
                &&& forall|j: int|
                    0 <= j < replies.len() ==> !((#[trigger] replies[j]) is Some
                        && replies[j]->0.cluster_known_nodes > 1
                        && replies[j]->0.cluster_state@ == "ok"@)
            },
            SeedStep::Found { ordinal } => {
                &&& ordinal < replies.len()
                &&& replies[ordinal as int] is Some
                &&& replies[ordinal as int]->0.cluster_known_nodes > 1
                &&& replies[ordinal as int]->0.cluster_state@ == "ok"@ ==> forall|j: int|
                    0 <= j < ordinal ==> !((#[trigger] replies[j]) is Some
                        && replies[j]->0.cluster_known_nodes > 1
                        && replies[j]->0.cluster_state@ == "ok"@)
                &&& replies[ordinal as int]->0.cluster_state@ != "ok"@ ==> {
                    &&& replies.len() >= total
                    &&& forall|j: int|
                        0 <= j < replies.len() ==> !((#[trigger] replies[j]) is Some
                            && replies[j]->0.cluster_known_nodes > 1
                            && replies[j]->0.cluster_state@ == "ok"@)
                    &&& forall|j: int|
                        0 <= j < ordinal ==> !((#[trigger] replies[j]) is Some
                            && replies[j]->0.cluster_known_nodes > 1)
                }
            },
            SeedStep::Absent => {
                &&& replies.len() >= total
                &&& forall|j: int|
                    0 <= j < replies.len() ==> !((#[trigger] replies[j]) is Some
                        && replies[j]->0.cluster_known_nodes > 1)
            },
        },
{
    lemma_first_healthy_found(replies);
    lemma_first_member_found(replies);
    lemma_first_member_first(replies);
    assert forall|j: int| 0 <= j < replies.len() implies (is_healthy(#[trigger] replies[j]) <==> (
    replies[j] is Some && replies[j]->0.cluster_known_nodes > 1
        && replies[j]->0.cluster_state@ == "ok"@)) by {}
    assert forall|j: int| 0 <= j < replies.len() implies (is_member(#[trigger] replies[j]) <==> (
    replies[j] is Some && replies[j]->0.cluster_known_nodes > 1)) by {}
}

proof fn lemma_first_member_first(replies: Seq<Option<ClusterInfo>>)
    ensures
        forall|j: int|
            0 <= j < replies.len() && is_member(#[trigger] replies[j]) ==> first_member(replies)
                <= j,
    decreases replies.len(),
{
    if replies.len() > 0 && !is_member(replies[0]) {
        let rest = replies.skip(1);
        lemma_first_member_first(rest);
        assert forall|j: int| 0 <= j < replies.len() && is_member(#[trigger] replies[j])
            implies first_member(replies) <= j by {
            assert(rest[j - 1] == replies[j]);
        }
    }
}

/// A pod is asked for the state of its cluster and for its nodes.
pub proof fn lemma_asked_of_pod(pod: Seq<char>)
    ensures
        info_command(pod).pod == pod && nodes_command(pod).pod == pod,
        info_command(pod).argv == seq!["redis-cli"@, "cluster"@, "info"@],
        nodes_command(pod).argv == seq!["redis-cli"@, "cluster"@, "nodes"@],
{
}

} // verus!
