//! What Redis and Sentinel say of themselves.

use vstd::prelude::*;

use crate::number;
use crate::text;

verus! {

/// What stands behind `prefix` in the first of `lines` that begins with it,
/// white space aside.
pub open spec fn first_behind(lines: Seq<Seq<char>>, prefix: Seq<char>) -> Option<Seq<char>>
    decreases lines.len(),
{
    if lines.len() == 0 {
        None
    } else {
        match text::without_prefix(text::trimmed(lines[0]), prefix) {
            Some(v) => Some(v),
            None => first_behind(lines.skip(1), prefix),
        }
    }
}

/// The number of replicas that `info replication` reports as connected; zero
/// where it reports no number.
pub open spec fn connected_slaves(s: Seq<char>) -> int {
    match first_behind(text::line_seq(s), "connected_slaves:"@) {
        Some(v) => match number::signed_value(text::trimmed(v), i32::MAX as int) {
            Some(n) => n,
            None => 0,
        },
        None => 0,
    }
}

/// Reads the number of connected replicas out of what `info replication` prints.
pub fn parse_connected_slaves(s: &str) -> (n: i32)
    ensures
        n == connected_slaves(s@),
{
    let lines = text::lines(s);
    let ghost all = text::line_seq(s@);
    let mut i: usize = 0;
    assert(all.skip(0) =~= all);
    while i < lines.len()
        invariant
            i <= lines.len(),
            all == text::views(lines@),
            all == text::line_seq(s@),
            first_behind(all, "connected_slaves:"@) == first_behind(
                all.skip(i as int),
                "connected_slaves:"@,
            ),
        decreases lines.len() - i,
    {
        proof {
            assert(all.skip(i as int)[0] == lines[i as int]@);
            assert(all.skip(i as int).skip(1) =~= all.skip(i + 1));
        }
        if let Some(v) = text::strip_prefix(text::trim(lines[i]), "connected_slaves:") {
            return match number::parse_i32(text::trim(v)) {
                Some(n) => n,
                None => 0,
            };
        }
        i = i + 1;
    }
    0
}

/// A value as `redis-cli` prints it: without its number in a list and without
/// quotes.
pub open spec fn bare(l: Seq<char>) -> Seq<char> {
    let v = match text::find(l, ") "@) {
        Some(i) => l.skip(i + 2),
        None => l,
    };
    text::stripped_end(text::stripped_start(v, '"'), '"')
}

/// Whether a line that was trimmed holds a value.
pub open spec fn holds_value(l: Seq<char>) -> bool {
    l.len() > 0 && text::without_prefix(l, "(nil)"@) is None
}

/// The values that the lines of a reply hold.
pub open spec fn values(lines: Seq<Seq<char>>) -> Seq<Seq<char>>
    decreases lines.len(),
{
    if lines.len() == 0 {
        Seq::empty()
    } else {
        let l = text::trimmed(lines.last());
        let before = values(lines.drop_last());
        if holds_value(l) {
            before.push(bare(l))
        } else {
            before
        }
    }
}

/// The host and port of the primary that Sentinel answers with: the first two
/// values of the reply. Nothing where there are none, where the host is empty or
/// where the port is no number.
pub open spec fn master_addr(out: Seq<char>) -> Option<(Seq<char>, int)> {
    let v = values(text::line_seq(out));
    if v.len() < 2 || v[0].len() == 0 {
        None
    } else {
        match number::signed_value(v[1], i32::MAX as int) {
            Some(port) => Some((v[0], port)),
            None => None,
        }
    }
}

/// A value as it stands in a line that was trimmed.
fn bare_value<'a>(l: &'a str) -> (v: &'a str)
    ensures
        v@ == bare(l@),
{
    proof {
        reveal_strlit(") ");
        assert(") "@.len() == 2);
    }
    let v = match text::split_once_text(l, ") ") {
        Some((_, v)) => v,
        None => l,
    };
    text::trim_matches(v, '"')
}

/// Reads the answer to `sentinel get-master-addr-by-name`, as a numbered list of
/// quoted values or as plain lines. `(nil)` and an empty answer are none.
pub fn parse_sentinel_master_addr(out: &str) -> (r: Option<(String, i32)>)
    ensures
        r is Some <==> master_addr(out@) is Some,
        r matches Some((host, port)) ==> master_addr(out@) == Some((host@, port as int)),
{
    let lines = text::lines(out);
    let ghost all = text::line_seq(out@);
    let mut vals: Vec<&str> = Vec::new();
    let mut i: usize = 0;
    assert(text::views(vals@) =~= values(all.take(0)));
    while i < lines.len()
        invariant
            i <= lines.len(),
            all == text::views(lines@),
            text::views(vals@) == values(all.take(i as int)),
        decreases lines.len() - i,
    {
        proof {
            assert(all.take(i + 1).drop_last() =~= all.take(i as int));
            assert(all.take(i + 1).last() == lines[i as int]@);
        }
        let l = text::trim(lines[i]);
        if !l.is_empty() && !text::starts_with(l, "(nil)") {
            let ghost before = vals@;
            let v = bare_value(l);
            vals.push(v);
            assert(text::views(vals@) =~= text::views(before).push(v@));
        }
        i = i + 1;
    }
    assert(all.take(i as int) =~= all);
    if vals.len() < 2 || vals[0].is_empty() {
        return None;
    }
    assert(text::views(vals@)[0] == vals[0]@ && text::views(vals@)[1] == vals[1]@);
    match number::parse_i32(vals[1]) {
        Some(port) => Some((vals[0].to_string(), port)),
        None => None,
    }
}

/// The pod that a host name begins with; nothing where that is empty.
pub open spec fn pod_in(host: Seq<char>) -> Option<Seq<char>> {
    let pod = text::head(host, '.');
    if pod.len() > 0 {
        Some(pod)
    } else {
        None
    }
}

/// The pod behind the host name of a primary. A bare name is its own pod.
pub fn master_pod_from_host(host: &str) -> (r: Option<String>)
    ensures
        text::opt_view(r) == pod_in(host@),
{
    let pod = text::before(host, '.');
    if pod.is_empty() {
        None
    } else {
        Some(pod.to_string())
    }
}

/// From the host name of a pod the pod is found again.
pub proof fn lemma_pod_found_again(pod: Seq<char>, svc: Seq<char>, ns: Seq<char>)
    requires
        pod.len() > 0,
        !pod.contains('.'),
    ensures
        pod_in(crate::controller::redis_cluster::command::host_of(pod, svc, ns)) == Some(pod),
{
    crate::controller::redis_cluster::command::lemma_pod_of_host(pod, svc, ns);
}

/// The first line with a name counts, whatever stands in the others.
pub proof fn lemma_first_behind_is(lines: Seq<Seq<char>>, prefix: Seq<char>)
    ensures
        match first_behind(lines, prefix) {
            Some(v) => exists|i: int|
                0 <= i < lines.len() && text::trimmed(#[trigger] lines[i]) == prefix + v
                    && forall|j: int|
                    0 <= j < i ==> !(prefix.len() <= text::trimmed(#[trigger] lines[j]).len()
                        && text::trimmed(lines[j]).take(prefix.len() as int) == prefix),
            None => forall|j: int|
                0 <= j < lines.len() ==> !(prefix.len() <= text::trimmed(
                    #[trigger] lines[j],
                ).len() && text::trimmed(lines[j]).take(prefix.len() as int) == prefix),
        },
    decreases lines.len(),
{
    if lines.len() > 0 {
        let t = text::trimmed(lines[0]);
        if text::without_prefix(t, prefix) is Some {
            assert(t =~= prefix + t.skip(prefix.len() as int));
            assert(text::trimmed(lines[0]) == prefix + first_behind(lines, prefix)->0);
        } else {
            let rest = lines.skip(1);
            lemma_first_behind_is(rest, prefix);
            match first_behind(rest, prefix) {
                Some(v) => {
                    let i = choose|i: int|
                        0 <= i < rest.len() && text::trimmed(#[trigger] rest[i]) == prefix + v
                            && forall|j: int|
                            0 <= j < i ==> !(prefix.len() <= text::trimmed(
                                #[trigger] rest[j],
                            ).len() && text::trimmed(rest[j]).take(prefix.len() as int) == prefix);
                    assert(lines[i + 1] == rest[i]);
                    assert forall|j: int| 0 <= j < i + 1 implies !(prefix.len() <= text::trimmed(
                        #[trigger] lines[j],
                    ).len() && text::trimmed(lines[j]).take(prefix.len() as int) == prefix) by {
                        if j > 0 {
                            assert(rest[j - 1] == lines[j]);
                        }
                    }
                },
                None => {
                    assert forall|j: int| 0 <= j < lines.len() implies !(prefix.len()
                        <= text::trimmed(#[trigger] lines[j]).len() && text::trimmed(
                        lines[j],
                    ).take(prefix.len() as int) == prefix) by {
                        if j > 0 {
                            assert(rest[j - 1] == lines[j]);
                        }
                    }
                },
            }
        }
    }
}

/// How many replicas are connected stands in the first line that is named so; zero
/// where there is none, or no number in it.
pub proof fn lemma_connected_slaves_is(s: Seq<char>)
    ensures
        connected_slaves(s) == (match first_behind(text::line_seq(s), "connected_slaves:"@) {
            None => 0,
            Some(v) => match number::signed_value(text::trimmed(v), i32::MAX as int) {
                None => 0,
                Some(n) => n,
            },
        }),
{
}

/// The values of a reply stand in its lines, one each. Blank lines and those that
/// begin with `(nil)` hold none.
pub proof fn lemma_values_by_line(a: Seq<Seq<char>>, line: Seq<char>, b: Seq<Seq<char>>)
    ensures
        values(a + b) == values(a) + values(b),
        ({
            let t = text::trimmed(line);
            values(seq![line]) == (if t.len() == 0 || (t.len() >= 5 && t.take(5) == "(nil)"@) {
                Seq::<Seq<char>>::empty()
            } else {
                seq![bare(t)]
            })
        }),
{
    lemma_values_concat(a, b);
    reveal_strlit("(nil)");
    assert("(nil)"@.len() == 5);
    let one = seq![line];
    assert(one.drop_last() =~= Seq::<Seq<char>>::empty());
    assert(values(one.drop_last()) =~= Seq::<Seq<char>>::empty());
    let t = text::trimmed(line);
    if t.len() == 0 || (t.len() >= 5 && t.take(5) == "(nil)"@) {
        assert(values(one) =~= Seq::<Seq<char>>::empty());
    } else {
        assert(values(one) =~= seq![bare(t)]);
    }
}

proof fn lemma_values_concat(a: Seq<Seq<char>>, b: Seq<Seq<char>>)
    ensures
        values(a + b) == values(a) + values(b),
    decreases b.len(),
{
    if b.len() == 0 {
        assert(a + b =~= a);
        assert(values(a) + values(b) =~= values(a));
    } else {
        lemma_values_concat(a, b.drop_last());
        assert((a + b).drop_last() =~= a + b.drop_last());
        assert((a + b).last() == b.last());
        assert(values(a + b) =~= values(a) + values(b));
    }
}

/// Sentinel names a primary where its answer has two values or more, the first not
/// empty and the second a number: these are its host and its port.
pub proof fn lemma_master_addr_is(out: Seq<char>)
    ensures
        ({
            let v = values(text::line_seq(out));
            match master_addr(out) {
                Some((host, port)) => v.len() >= 2 && host == v[0] && host.len() > 0
                    && number::signed_value(v[1], i32::MAX as int) == Some(port),
                None => v.len() < 2 || v[0].len() == 0 || number::signed_value(
                    v[1],
                    i32::MAX as int,
                ) is None,
            }
        }),
{
}

/// A value loses its number in the list and the quotes around it. One that stands
/// by itself is taken as it is.
pub proof fn lemma_bare_value(number: Seq<char>, v: Seq<char>)
    requires
        !number.contains(')'),
        !v.contains(')'),
        !v.contains('"'),
    ensures
        bare(number + seq![')', ' ', '"'] + v + seq!['"']) == v,
        bare(v) == v,
{
    reveal_strlit(") ");
    let p = ") "@;
    assert(p.len() == 2 && p[0] == ')' && p[1] == ' ');
    let l = number + seq![')', ' ', '"'] + v + seq!['"'];
    let n = number.len() as int;
    assert(l.skip(n).take(2) =~= p);
    lemma_found_at(l, p, n);
    let w = l.skip(n + 2);
    assert(w =~= seq!['"'] + v + seq!['"']);
    assert(w.skip(1) =~= v + seq!['"']);
    if v.len() > 0 {
        assert(v[0] != '"') by {
            assert(v.contains(v[0]));
        }
        assert(v.last() != '"') by {
            assert(v.contains(v[v.len() - 1]));
        }
        assert((v + seq!['"'])[0] == v[0]);
        assert(text::stripped_start(w.skip(1), '"') == w.skip(1));
        assert(text::stripped_start(w, '"') == w.skip(1));
        assert(w.skip(1).drop_last() =~= v);
        assert(text::stripped_end(v, '"') == v);
    } else {
        assert(v =~= Seq::<char>::empty());
        assert(w.skip(1).skip(1) =~= Seq::<char>::empty());
        assert(text::stripped_start(w.skip(1).skip(1), '"') == w.skip(1).skip(1));
        assert(text::stripped_start(w.skip(1), '"') == w.skip(1).skip(1));
        assert(text::stripped_start(w, '"') == w.skip(1).skip(1));
    }
    assert(bare(l) =~= v);
    lemma_found_nowhere(v, p);
    if v.len() > 0 {
        assert(text::stripped_start(v, '"') == v);
    }
    assert(bare(v) =~= v);
}

proof fn lemma_found_at(l: Seq<char>, p: Seq<char>, n: int)
    requires
        p.len() == 2,
        p[0] == ')',
        0 <= n,
        n + 2 <= l.len(),
        l.skip(n).take(2) == p,
        forall|j: int| 0 <= j < n ==> l[j] != ')',
    ensures
        text::find(l, p) == Some(n),
    decreases n,
{
    if n == 0 {
        assert(l.skip(0) =~= l);
    } else {
        if text::without_prefix(l, p) is Some {
            assert(l.take(2)[0] == l[0]);
        }
        let rest = l.skip(1);
        assert(rest.skip(n - 1) =~= l.skip(n));
        lemma_found_at(rest, p, n - 1);
    }
}

proof fn lemma_found_nowhere(l: Seq<char>, p: Seq<char>)
    requires
        p.len() == 2,
        p[0] == ')',
        !l.contains(')'),
    ensures
        text::find(l, p) is None,
    decreases l.len(),
{
    if text::without_prefix(l, p) is Some {
        assert(l.take(2)[0] == l[0]);
        assert(l.contains(l[0]));
    }
    if l.len() > 0 {
        let rest = l.skip(1);
        assert(!rest.contains(')')) by {
            if rest.contains(')') {
                let i = choose|i: int| 0 <= i < rest.len() && rest[i] == ')';
                assert(l[i + 1] == ')');
            }
        }
        lemma_found_nowhere(rest, p);
    }
}

/// A host begins with its pod, which has no dot in it and ends at the first one. There
/// is none exactly where the host is empty or begins with a dot.
pub proof fn lemma_pod_begins_host(host: Seq<char>)
    ensures
        match pod_in(host) {
            Some(pod) => pod.len() > 0 && !pod.contains('.') && (pod == host || exists|rest: Seq<
                char,
            >| host == #[trigger] (pod + seq!['.'] + rest)),
            None => host.len() == 0 || host[0] == '.',
        },
{
    text::lemma_head_is(host, '.');
    text::lemma_first_index_bounds(host, '.');
}

} // verus!
