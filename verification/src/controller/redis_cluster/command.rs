//! Names of pods and hosts, and the commands that run in them.

use vstd::prelude::*;

use crate::number;
use crate::text;

verus! {

/// A command to run in a pod.
#[derive(Debug, PartialEq, Eq)]
pub struct Command {
    pub pod: String,
    pub argv: Vec<String>,
}

#[verifier::ext_equal]
pub ghost struct CommandView {
    pub pod: Seq<char>,
    pub argv: Seq<Seq<char>>,
}

impl View for Command {
    type V = CommandView;

    open spec fn view(&self) -> CommandView {
        CommandView { pod: self.pod@, argv: text::owned_views(self.argv@) }
    }
}

/// What a list of commands holds.
pub open spec fn commands_view(v: Seq<Command>) -> Seq<CommandView> {
    v.map_values(|c: Command| c@)
}

pub proof fn lemma_commands_push(v: Seq<Command>, c: Command)
    ensures
        commands_view(v.push(c)) == commands_view(v).push(c@),
{
    assert(commands_view(v.push(c)) =~= commands_view(v).push(c@));
}

/// The command `argv` in the pod `pod`.
pub fn command(pod: &str, argv: &Vec<&str>) -> (c: Command)
    ensures
        c@ == (CommandView { pod: pod@, argv: text::views(argv@) }),
{
    Command { pod: pod.to_string(), argv: text::own_all(argv) }
}

/// The pod with this ordinal in a stateful set.
pub open spec fn pod_name(sts: Seq<char>, ordinal: int) -> Seq<char> {
    sts + "-"@ + number::written(ordinal)
}

/// The host name of a pod behind the headless service `svc`.
pub open spec fn host_of(pod: Seq<char>, svc: Seq<char>, ns: Seq<char>) -> Seq<char> {
    pod + "."@ + svc + "."@ + ns + ".svc.cluster.local"@
}

/// The host name of the pod with this ordinal in a stateful set.
pub open spec fn host_name(sts: Seq<char>, ns: Seq<char>, ordinal: int) -> Seq<char> {
    host_of(pod_name(sts, ordinal), sts, ns)
}

/// Where the Redis server on a host listens.
pub open spec fn endpoint(host: Seq<char>) -> Seq<char> {
    host + ":6379"@
}

/// The pod with this ordinal in a stateful set.
pub fn ordinal_pod(sts_name: &str, ordinal: i32) -> (s: String)
    ensures
        s@ == pod_name(sts_name@, ordinal as int),
{
    let mut s = sts_name.to_string();
    s.append("-");
    s.append(&number::i32_text(ordinal));
    s
}

/// The host name of a pod behind the headless service `svc`.
pub fn pod_fqdn(pod: &str, svc: &str, ns: &str) -> (s: String)
    ensures
        s@ == host_of(pod@, svc@, ns@),
{
    let mut s = pod.to_string();
    s.append(".");
    s.append(svc);
    s.append(".");
    s.append(ns);
    s.append(".svc.cluster.local");
    s
}

/// The host name of the pod with this ordinal in a stateful set.
pub fn pod_hostname(sts_name: &str, ns: &str, ordinal: i32) -> (s: String)
    ensures
        s@ == host_name(sts_name@, ns@, ordinal as int),
{
    pod_fqdn(&ordinal_pod(sts_name, ordinal), sts_name, ns)
}

/// Where the Redis server on a host listens.
pub fn redis_endpoint(host: &str) -> (s: String)
    ensures
        s@ == endpoint(host@),
{
    let mut s = host.to_string();
    s.append(":6379");
    s
}

/// The first label of a host name, which is the name of the pod.
pub fn pod_of(hostname: &str) -> (s: &str)
    ensures
        s@ == text::head(hostname@, '.'),
{
    text::before(hostname, '.')
}

/// The pod of a host name is the pod that the host name was made of, unless
/// that has a dot in it.
pub proof fn lemma_pod_of_host(pod: Seq<char>, svc: Seq<char>, ns: Seq<char>)
    requires
        !pod.contains('.'),
    ensures
        text::head(host_of(pod, svc, ns), '.') == pod,
{
    reveal_strlit(".");
    let h = host_of(pod, svc, ns);
    assert forall|j: int| 0 <= j < pod.len() implies h[j] != '.' by {
        assert(h[j] == pod[j]);
        assert(pod.contains(pod[j]));
    }
    assert(h[pod.len() as int] == "."@[0]);
    text::lemma_first_index_is(h, '.', pod.len() as int);
    assert(h.take(pod.len() as int) =~= pod);
}

/// Different pods of a set have different host names.
pub proof fn lemma_host_names_distinct(sts: Seq<char>, ns: Seq<char>, a: int, b: int)
    requires
        host_name(sts, ns, a) == host_name(sts, ns, b),
    ensures
        a == b,
{
    let x = number::written(a);
    let y = number::written(b);
    let max = if a * a >= b * b {
        a * a
    } else {
        b * b
    };
    assert(-max - 1 <= a <= max && -max - 1 <= b <= max) by (nonlinear_arith)
        requires
            max >= a * a,
            max >= b * b,
    ;
    number::lemma_signed_round_trip(a, max);
    number::lemma_signed_round_trip(b, max);
    number::lemma_written_chars(a);
    number::lemma_written_chars(b);
    let h = host_name(sts, ns, a);
    let k: int = sts.len() as int + 1;
    reveal_strlit("-");
    reveal_strlit(".");
    assert forall|j: int| 0 <= j < x.len() implies h[k + j] == x[j] by {
        assert(pod_name(sts, a)[k + j] == x[j]);
    }
    assert forall|j: int| 0 <= j < y.len() implies h[k + j] == y[j] by {
        assert(pod_name(sts, b)[k + j] == y[j]);
    }
    assert(h[k + x.len()] == '.');
    assert(h[k + y.len()] == '.');
    if x.len() < y.len() {
        assert(y[x.len() as int] != '.');
    }
    if y.len() < x.len() {
        assert(x[y.len() as int] != '.');
    }
    assert(x =~= y);
}

} // verus!
