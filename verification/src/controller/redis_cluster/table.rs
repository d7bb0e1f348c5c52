//! What `redis-cli` says of a cluster: its state, its node table, and where a
//! replica replicates from.

use vstd::prelude::*;

use crate::number;
use crate::text;

verus! {

/// The state of a cluster as one of its nodes sees it.
#[derive(Debug, PartialEq, Eq)]
pub struct ClusterInfo {
    pub cluster_state: String,
    pub cluster_known_nodes: i32,
}

/// The value behind the last colon-separated `key` in `lines`.
pub open spec fn last_field(lines: Seq<Seq<char>>, key: Seq<char>) -> Option<Seq<char>>
    decreases lines.len(),
{
    if lines.len() == 0 {
        None
    } else {
        match text::cut(lines.last(), ':') {
            Some((k, v)) => if text::trimmed(k) == key {
                Some(text::trimmed(v))
            } else {
                last_field(lines.drop_last(), key)
            },
            None => last_field(lines.drop_last(), key),
        }
    }
}

/// The state that `cluster info` reports; empty where it reports none.
pub open spec fn reported_state(s: Seq<char>) -> Seq<char> {
    match last_field(text::line_seq(s), "cluster_state"@) {
        Some(v) => v,
        None => Seq::empty(),
    }
}

/// A count that `cluster info` reports: zero where it is none.
pub open spec fn count_value(v: Option<Seq<char>>) -> int {
    match v {
        Some(v) => match number::signed_value(v, i32::MAX as int) {
            Some(n) => n,
            None => 0,
        },
        None => 0,
    }
}

/// The number of nodes that `cluster info` reports.
pub open spec fn reported_nodes(s: Seq<char>) -> int {
    count_value(last_field(text::line_seq(s), "cluster_known_nodes"@))
}

/// Reads what `redis-cli cluster info` prints.
pub fn parse_cluster_info(s: &str) -> (info: ClusterInfo)
    ensures
        info.cluster_state@ == reported_state(s@),
        info.cluster_known_nodes == reported_nodes(s@),
{
    let lines = text::lines(s);
    let ghost all = text::line_seq(s@);
    let mut state = String::new();
    let mut known: i32 = 0;
    let mut i: usize = 0;
    proof {
        reveal_strlit("cluster_state");
        reveal_strlit("cluster_known_nodes");
        assert("cluster_state"@.len() == 13 && "cluster_known_nodes"@.len() == 19);
        assert(state@ =~= Seq::<char>::empty());
    }
    while i < lines.len()
        invariant
            i <= lines.len(),
            all == text::views(lines@),
            "cluster_state"@ != "cluster_known_nodes"@,
            state@ == (match last_field(all.take(i as int), "cluster_state"@) {
                Some(v) => v,
                None => Seq::empty(),
            }),
            known == count_value(last_field(all.take(i as int), "cluster_known_nodes"@)),
        decreases lines.len() - i,
    {
        proof {
            assert(all.take(i + 1).drop_last() =~= all.take(i as int));
            assert(all.take(i + 1).last() == lines[i as int]@);
        }
        if let Some((k, v)) = text::split_once(lines[i], ':') {
            let key = text::trim(k);
            let value = text::trim(v);
            if text::same(key, "cluster_state") {
                state = value.to_string();
            } else if text::same(key, "cluster_known_nodes") {
                known = match number::parse_i32(value) {
                    Some(n) => n,
                    None => 0,
                };
            }
        }
        i = i + 1;
    }
    assert(all.take(i as int) =~= all);
    ClusterInfo { cluster_state: state, cluster_known_nodes: known }
}

/// A node of the cluster, as the node table lists it.
#[derive(Debug, PartialEq, Eq)]
pub struct ClusterNode {
    pub id: String,
    /// Address and port, without the bus port.
    pub addr: String,
    pub hostname: String,
    pub flags: Vec<String>,
    /// Of a replica, the node that it replicates.
    pub master_id: Option<String>,
    /// The slots that it owns, as ranges from first to last.
    pub slots: Vec<(u16, u16)>,
}

#[verifier::ext_equal]
pub ghost struct NodeView {
    pub id: Seq<char>,
    pub addr: Seq<char>,
    pub hostname: Seq<char>,
    pub flags: Seq<Seq<char>>,
    pub master_id: Option<Seq<char>>,
    pub slots: Seq<(u16, u16)>,
}

impl View for ClusterNode {
    type V = NodeView;

    open spec fn view(&self) -> NodeView {
        NodeView {
            id: self.id@,
            addr: self.addr@,
            hostname: self.hostname@,
            flags: text::owned_views(self.flags@),
            master_id: text::opt_view(self.master_id),
            slots: self.slots@,
        }
    }
}

/// What a node table holds.
pub open spec fn nodes_view(v: Seq<ClusterNode>) -> Seq<NodeView> {
    v.map_values(|n: ClusterNode| n@)
}

/// The number of slots in `ranges`.
pub open spec fn slot_sum(ranges: Seq<(u16, u16)>) -> int
    decreases ranges.len(),
{
    if ranges.len() == 0 {
        0
    } else {
        slot_sum(ranges.drop_last()) + (ranges.last().1 - ranges.last().0 + 1)
    }
}

/// Slots are summed range by range, both ends of a range counted.
pub proof fn lemma_slots_summed(ranges: Seq<(u16, u16)>)
    ensures
        slot_sum(ranges) == ranges.fold_left(
            0int,
            |c: int, r: (u16, u16)| c + (r.1 - r.0 + 1),
        ),
    decreases ranges.len(),
{
    if ranges.len() > 0 {
        lemma_slots_summed(ranges.drop_last());
    }
}

/// Whether each range ends no earlier than it begins, and they can be counted.
pub open spec fn ranges_ok(ranges: Seq<(u16, u16)>) -> bool {
    &&& forall|i: int| 0 <= i < ranges.len() ==> (#[trigger] ranges[i]).0 <= ranges[i].1
    &&& slot_sum(ranges) <= u32::MAX
}

impl NodeView {
    pub open spec fn has_flag(self, flag: Seq<char>) -> bool {
        self.flags.contains(flag)
    }

    pub open spec fn is_master(self) -> bool {
        self.has_flag("master"@)
    }

    pub open spec fn is_failed(self) -> bool {
        self.has_flag("fail"@)
    }
}

pub proof fn lemma_slot_sum_grows(ranges: Seq<(u16, u16)>, k: int)
    requires
        0 <= k <= ranges.len(),
        forall|i: int| 0 <= i < ranges.len() ==> (#[trigger] ranges[i]).0 <= ranges[i].1,
    ensures
        0 <= slot_sum(ranges.take(k)) <= slot_sum(ranges),
    decreases ranges.len(),
{
    if k == ranges.len() {
        assert(ranges.take(k) =~= ranges);
        if k > 0 {
            assert(ranges[k - 1].0 <= ranges[k - 1].1);
            lemma_slot_sum_grows(ranges.drop_last(), k - 1);
            assert(ranges.drop_last().take(k - 1) =~= ranges.drop_last());
        }
    } else {
        let l = ranges.len() - 1;
        assert(ranges[l].0 <= ranges[l].1);
        lemma_slot_sum_grows(ranges.drop_last(), k);
        assert(ranges.drop_last().take(k) =~= ranges.take(k));
    }
}

impl ClusterNode {
    fn has_flag(&self, flag: &str) -> (b: bool)
        ensures
            b == self@.has_flag(flag@),
    {
        let mut i: usize = 0;
        let ghost f = text::owned_views(self.flags@);
        while i < self.flags.len()
            invariant
                i <= self.flags.len(),
                f == text::owned_views(self.flags@),
                forall|j: int| 0 <= j < i ==> f[j] != flag@,
            decreases self.flags.len() - i,
        {
            if text::same(&self.flags[i], flag) {
                assert(f[i as int] == flag@);
                return true;
            }
            i = i + 1;
        }
        assert(!f.contains(flag@));
        false
    }

    pub fn is_master(&self) -> (b: bool)
        ensures
            b == self@.is_master(),
    {
        self.has_flag("master")
    }

    /// Whether the cluster holds the node for failed.
    pub fn is_failed(&self) -> (b: bool)
        ensures
            b == self@.is_failed(),
    {
        self.has_flag("fail")
    }

    /// The number of slots that the node owns.
    pub fn slot_count(&self) -> (n: u32)
        requires
            ranges_ok(self.slots@),
        ensures
            n == slot_sum(self.slots@),
    {
        let mut sum: u32 = 0;
        let mut i: usize = 0;
        assert(self.slots@.take(0) =~= Seq::<(u16, u16)>::empty());
        while i < self.slots.len()
            invariant
                ranges_ok(self.slots@),
                i <= self.slots.len(),
                sum == slot_sum(self.slots@.take(i as int)),
            decreases self.slots.len() - i,
        {
            let (a, b) = self.slots[i];
            proof {
                lemma_slot_sum_grows(self.slots@, i + 1);
                assert(self.slots@.take(i + 1).drop_last() =~= self.slots@.take(i as int));
                assert(self.slots@[i as int].0 <= self.slots@[i as int].1);
            }
            sum = sum + (b as u32 - a as u32 + 1);
            i = i + 1;
        }
        assert(self.slots@.take(i as int) =~= self.slots@);
        sum
    }

    /// Whether the slots of the node can be counted.
    pub fn slots_countable(&self) -> (b: bool)
        ensures
            b == ranges_ok(self.slots@),
    {
        let mut sum: u64 = 0;
        let mut i: usize = 0;
        assert(self.slots@.take(0) =~= Seq::<(u16, u16)>::empty());
        while i < self.slots.len()
            invariant
                i <= self.slots.len(),
                forall|j: int| 0 <= j < i ==> (#[trigger] self.slots@[j]).0 <= self.slots@[j].1,
                sum == slot_sum(self.slots@.take(i as int)),
                sum <= u32::MAX,
            decreases self.slots.len() - i,
        {
            let (a, b) = self.slots[i];
            assert(self.slots@.take(i + 1).drop_last() =~= self.slots@.take(i as int));
            if a > b {
                assert(self.slots@[i as int].0 > self.slots@[i as int].1);
                return false;
            }
            sum = sum + (b as u64 - a as u64 + 1);
            if sum > u32::MAX as u64 {
                proof {
                    if ranges_ok(self.slots@) {
                        lemma_slot_sum_grows(self.slots@, i + 1);
                    }
                }
                return false;
            }
            i = i + 1;
        }
        assert(self.slots@.take(i as int) =~= self.slots@);
        true
    }
}

/// The slot range that a column of the node table writes down: one slot, or the
/// first and the last with a dash between. A slot on the move is none.
pub open spec fn slot_range(p: Seq<char>) -> Option<(u16, u16)> {
    if p.len() > 0 && p[0] == '[' {
        None
    } else {
        match text::cut(p, '-') {
            Some((a, b)) => match (
                number::unsigned_value(a, u16::MAX as int),
                number::unsigned_value(b, u16::MAX as int),
            ) {
                (Some(x), Some(y)) => Some((x as u16, y as u16)),
                _ => None,
            },
            None => match number::unsigned_value(p, u16::MAX as int) {
                Some(x) => Some((x as u16, x as u16)),
                None => None,
            },
        }
    }
}

/// The slot ranges among the columns `parts`.
pub open spec fn slot_ranges(parts: Seq<Seq<char>>) -> Seq<(u16, u16)>
    decreases parts.len(),
{
    if parts.len() == 0 {
        Seq::empty()
    } else {
        match slot_range(parts.last()) {
            Some(r) => slot_ranges(parts.drop_last()).push(r),
            None => slot_ranges(parts.drop_last()),
        }
    }
}

/// Reads one column of slots.
fn parse_slot(p: &str) -> (r: Option<(u16, u16)>)
    ensures
        r == slot_range(p@),
{
    let v = text::chars_of(p);
    if v.len() > 0 && v[0] == '[' {
        return None;
    }
    match text::split_once(p, '-') {
        Some((a, b)) => match (number::parse_u16(a), number::parse_u16(b)) {
            (Some(x), Some(y)) => Some((x, y)),
            _ => None,
        },
        None => match number::parse_u16(p) {
            Some(x) => Some((x, x)),
            None => None,
        },
    }
}

/// Reads the slot columns of a line, from the column `from` on.
pub fn parse_slots(parts: &Vec<&str>, from: usize) -> (ranges: Vec<(u16, u16)>)
    requires
        from <= parts.len(),
    ensures
        ranges@ == slot_ranges(text::views(parts@).skip(from as int)),
{
    let ghost all = text::views(parts@).skip(from as int);
    let mut ranges: Vec<(u16, u16)> = Vec::new();
    let mut i: usize = from;
    assert(ranges@ =~= slot_ranges(all.take(0)));
    while i < parts.len()
        invariant
            from <= i <= parts.len(),
            all == text::views(parts@).skip(from as int),
            ranges@ == slot_ranges(all.take(i - from)),
        decreases parts.len() - i,
    {
        proof {
            assert(all.take(i - from + 1).drop_last() =~= all.take(i - from));
            assert(all.take(i - from + 1).last() == parts[i as int]@);
        }
        if let Some(r) = parse_slot(parts[i]) {
            ranges.push(r);
        }
        i = i + 1;
    }
    assert(all.take(i - from) =~= all);
    ranges
}

/// The node that a line of the node table lists:
/// `<id> <ip:port@cport,hostname> <flags> <master or dash> <ping> <pong> <epoch> <link> <slot>...`.
/// Without an announced host name there is none: host names are what tells pods
/// apart while addresses change.
pub open spec fn node_of_line(line: Seq<char>) -> Option<NodeView> {
    let p = text::words(line);
    if p.len() < 8 {
        None
    } else {
        match text::cut(p[1], ',') {
            None => None,
            Some((addr, hostname)) => Some(
                NodeView {
                    id: p[0],
                    addr: text::head(addr, '@'),
                    hostname,
                    flags: text::pieces(p[2], ','),
                    master_id: if p[3] == "-"@ {
                        None
                    } else {
                        Some(p[3])
                    },
                    slots: slot_ranges(p.skip(8)),
                },
            ),
        }
    }
}

/// The nodes that the lines of a node table list.
pub open spec fn nodes_of(lines: Seq<Seq<char>>) -> Seq<NodeView>
    decreases lines.len(),
{
    if lines.len() == 0 {
        Seq::empty()
    } else {
        match node_of_line(lines.last()) {
            Some(n) => nodes_of(lines.drop_last()).push(n),
            None => nodes_of(lines.drop_last()),
        }
    }
}

/// Reads one line of the node table.
fn parse_node(line: &str) -> (r: Option<ClusterNode>)
    ensures
        r is Some <==> node_of_line(line@) is Some,
        r matches Some(n) ==> node_of_line(line@) == Some(n@),
{
    let parts = text::split_whitespace(line);
    let ghost p = text::words(line@);
    if parts.len() < 8 {
        return None;
    }
    assert(parts[0]@ == p[0] && parts[1]@ == p[1] && parts[2]@ == p[2] && parts[3]@ == p[3]);
    match text::split_once(parts[1], ',') {
        None => None,
        Some((addr, hostname)) => {
            let flags = text::own_all(&text::split(parts[2], ','));
            let master_id = if text::same(parts[3], "-") {
                None
            } else {
                Some(parts[3].to_string())
            };
            let node = ClusterNode {
                id: parts[0].to_string(),
                addr: text::before(addr, '@').to_string(),
                hostname: hostname.to_string(),
                flags,
                master_id,
                slots: parse_slots(&parts, 8),
            };
            Some(node)
        },
    }
}

/// Reads what `redis-cli cluster nodes` prints.
pub fn parse_cluster_nodes(s: &str) -> (out: Vec<ClusterNode>)
    ensures
        nodes_view(out@) == nodes_of(text::line_seq(s@)),
{
    let lines = text::lines(s);
    let ghost all = text::line_seq(s@);
    let mut out: Vec<ClusterNode> = Vec::new();
    let mut i: usize = 0;
    assert(nodes_view(out@) =~= nodes_of(all.take(0)));
    while i < lines.len()
        invariant
            i <= lines.len(),
            all == text::views(lines@),
            nodes_view(out@) == nodes_of(all.take(i as int)),
        decreases lines.len() - i,
    {
        proof {
            assert(all.take(i + 1).drop_last() =~= all.take(i as int));
            assert(all.take(i + 1).last() == lines[i as int]@);
        }
        if let Some(n) = parse_node(lines[i]) {
            let ghost before = out@;
            out.push(n);
            assert(nodes_view(out@) =~= nodes_view(before).push(n@));
        }
        i = i + 1;
    }
    assert(all.take(i as int) =~= all);
    out
}

/// What stands behind `prefix` in the last of `lines` that begins with it, white
/// space aside.
pub open spec fn last_behind(lines: Seq<Seq<char>>, prefix: Seq<char>) -> Option<Seq<char>>
    decreases lines.len(),
{
    if lines.len() == 0 {
        None
    } else {
        match text::without_prefix(text::trimmed(lines.last()), prefix) {
            Some(v) => Some(v),
            None => last_behind(lines.drop_last(), prefix),
        }
    }
}

/// The host and port that a replica says it replicates from.
pub open spec fn replication_target(s: Seq<char>) -> Option<(Seq<char>, Seq<char>)> {
    let lines = text::line_seq(s);
    if last_behind(lines, "role:"@) == Some("slave"@) {
        match (last_behind(lines, "master_host:"@), last_behind(lines, "master_port:"@)) {
            (Some(host), Some(port)) => Some((host, port)),
            _ => None,
        }
    } else {
        None
    }
}

/// No line begins with two of the names that are looked for.
proof fn lemma_names_apart(line: Seq<char>)
    ensures
        text::without_prefix(line, "role:"@) is Some ==> text::without_prefix(
            line,
            "master_host:"@,
        ) is None && text::without_prefix(line, "master_port:"@) is None,
        text::without_prefix(line, "master_host:"@) is Some ==> text::without_prefix(
            line,
            "master_port:"@,
        ) is None,
{
    reveal_strlit("role:");
    reveal_strlit("master_host:");
    reveal_strlit("master_port:");
    let r = "role:"@;
    let h = "master_host:"@;
    let p = "master_port:"@;
    if text::without_prefix(line, r) is Some {
        assert(line.take(5)[0] == 'r');
        if text::without_prefix(line, h) is Some {
            assert(line.take(12)[0] == 'm');
        }
        if text::without_prefix(line, p) is Some {
            assert(line.take(12)[0] == 'm');
        }
    }
    if text::without_prefix(line, h) is Some {
        assert(line.take(12)[7] == 'h');
        if text::without_prefix(line, p) is Some {
            assert(line.take(12)[7] == 'p');
        }
    }
}

/// Reads where a replica replicates from out of what `info replication` prints.
/// Nothing for a master, or where host or port is missing.
pub fn parse_replication_target(s: &str) -> (r: Option<(String, String)>)
    ensures
        r is Some <==> replication_target(s@) is Some,
        r matches Some((host, port)) ==> replication_target(s@) == Some((host@, port@)),
{
    let lines = text::lines(s);
    let ghost all = text::line_seq(s@);
    let mut is_replica = false;
    let mut host: Option<String> = None;
    let mut port: Option<String> = None;
    let mut i: usize = 0;
    while i < lines.len()
        invariant
            i <= lines.len(),
            all == text::views(lines@),
            is_replica == (last_behind(all.take(i as int), "role:"@) == Some("slave"@)),
            text::opt_view(host) == last_behind(all.take(i as int), "master_host:"@),
            text::opt_view(port) == last_behind(all.take(i as int), "master_port:"@),
        decreases lines.len() - i,
    {
        let line = text::trim(lines[i]);
        proof {
            assert(all.take(i + 1).drop_last() =~= all.take(i as int));
            assert(all.take(i + 1).last() == lines[i as int]@);
            lemma_names_apart(line@);
        }
        if let Some(v) = text::strip_prefix(line, "role:") {
            is_replica = text::same(v, "slave");
        } else if let Some(v) = text::strip_prefix(line, "master_host:") {
            host = Some(v.to_string());
        } else if let Some(v) = text::strip_prefix(line, "master_port:") {
            port = Some(v.to_string());
        }
        i = i + 1;
    }
    assert(all.take(i as int) =~= all);
    if !is_replica {
        return None;
    }
    match (host, port) {
        (Some(h), Some(p)) => Some((h, p)),
        _ => None,
    }
}

/// A row of the node table gives the node what its columns say: its id, the address
/// in front of the bus port and the host name behind it, its flags, its master
/// unless there is a dash, and the slots from the ninth column on.
pub proof fn lemma_row_read(
    line: Seq<char>,
    addr: Seq<char>,
    bus: Seq<char>,
    host: Seq<char>,
)
    requires
        text::words(line).len() >= 8,
        text::words(line)[1] == addr + seq!['@'] + bus + seq![','] + host,
        !addr.contains('@'),
        !addr.contains(','),
        !bus.contains(','),
    ensures
        ({
            let w = text::words(line);
            let n = node_of_line(line);
            &&& n is Some
            &&& n->0.id == w[0]
            &&& n->0.addr == addr
            &&& n->0.hostname == host
            &&& n->0.flags == text::pieces(w[2], ',')
            &&& n->0.master_id is None <==> w[3] == seq!['-']
            &&& n->0.master_id is Some ==> n->0.master_id == Some(w[3])
            &&& n->0.slots == slot_ranges(w.skip(8))
        }),
{
    let w = text::words(line);
    reveal_strlit("-");
    assert("-"@ =~= seq!['-']);
    let front = addr + seq!['@'] + bus;
    assert forall|j: int| 0 <= j < front.len() implies front[j] != ',' by {
        if j < addr.len() {
            assert(addr.contains(addr[j]));
        } else if j > addr.len() {
            assert(front[j] == bus[j - addr.len() - 1]);
            assert(bus.contains(bus[j - addr.len() - 1]));
        }
    }
    let k = front.len() as int;
    assert forall|j: int| 0 <= j < k implies w[1][j] != ',' by {
        assert(w[1][j] == front[j]);
    }
    text::lemma_first_index_is(w[1], ',', k);
    assert(w[1].take(k) =~= front);
    assert(w[1].skip(k + 1) =~= host);
    assert forall|j: int| 0 <= j < addr.len() implies front[j] != '@' by {
        assert(addr.contains(addr[j]));
    }
    text::lemma_first_index_is(front, '@', addr.len() as int);
    assert(front.take(addr.len() as int) =~= addr);
}

/// A row with fewer than eight columns, or without a host name, lists no node.
pub proof fn lemma_row_skipped(line: Seq<char>)
    ensures
        node_of_line(line) is None <==> text::words(line).len() < 8 || !text::words(
            line,
        )[1].contains(','),
{
    let w = text::words(line);
    if w.len() >= 8 {
        text::lemma_cut_is(w[1], ',');
        if text::cut(w[1], ',') is Some {
            let i = text::first_index(w[1], ',');
            text::lemma_first_index_bounds(w[1], ',');
            assert(w[1][i] == ',');
        }
    }
}

/// One slot is a range of its own, and two with a dash between are the ends of one.
/// What stands in brackets is on the move, and no range.
pub proof fn lemma_slots_read(a: nat, b: nat, rest: Seq<char>)
    requires
        a <= u16::MAX,
        b <= u16::MAX,
    ensures
        slot_range(number::written(a as int)) == Some((a as u16, a as u16)),
        slot_range(number::written(a as int) + seq!['-'] + number::written(b as int)) == Some(
            (a as u16, b as u16),
        ),
        slot_range(seq!['['] + rest) is None,
{
    let x = number::written(a as int);
    let y = number::written(b as int);
    number::lemma_unsigned_round_trip(a, u16::MAX as int);
    number::lemma_unsigned_round_trip(b, u16::MAX as int);
    number::lemma_digits(a);
    assert(forall|j: int| 0 <= j < x.len() ==> number::is_digit(#[trigger] x[j]));
    assert forall|j: int| 0 <= j < x.len() implies x[j] != '-' by {
        assert(number::is_digit(x[j]));
    }
    text::lemma_first_index_is(x, '-', x.len() as int);
    assert(number::is_digit(x[0]));
    let t = x + seq!['-'] + y;
    assert forall|j: int| 0 <= j < x.len() implies t[j] != '-' by {
        assert(t[j] == x[j]);
    }
    text::lemma_first_index_is(t, '-', x.len() as int);
    assert(t[0] == x[0]);
    assert(t.take(x.len() as int) =~= x);
    assert(t.skip(x.len() as int + 1) =~= y);
    assert((seq!['['] + rest)[0] == '[');
}

/// Slots come column by column, and nodes row by row, each in the order in which it
/// is written and as often.
pub proof fn lemma_table_read_in_order(
    parts: Seq<Seq<char>>,
    more: Seq<Seq<char>>,
    lines: Seq<Seq<char>>,
    below: Seq<Seq<char>>,
    one: Seq<char>,
)
    ensures
        slot_ranges(parts + more) == slot_ranges(parts) + slot_ranges(more),
        slot_ranges(seq![one]) == (match slot_range(one) {
            Some(r) => seq![r],
            None => Seq::empty(),
        }),
        nodes_of(lines + below) == nodes_of(lines) + nodes_of(below),
        nodes_of(seq![one]) == (match node_of_line(one) {
            Some(n) => seq![n],
            None => Seq::empty(),
        }),
{
    lemma_slots_concat(parts, more);
    lemma_nodes_concat(lines, below);
    let s = seq![one];
    assert(s.drop_last() =~= Seq::<Seq<char>>::empty());
    assert(s.last() == one);
    assert(slot_ranges(s.drop_last()) =~= Seq::<(u16, u16)>::empty());
    assert(nodes_of(s.drop_last()) =~= Seq::<NodeView>::empty());
    assert(slot_ranges(s) =~= (match slot_range(one) {
        Some(r) => seq![r],
        None => Seq::empty(),
    }));
    assert(nodes_of(s) =~= (match node_of_line(one) {
        Some(n) => seq![n],
        None => Seq::empty(),
    }));
}

proof fn lemma_slots_concat(a: Seq<Seq<char>>, b: Seq<Seq<char>>)
    ensures
        slot_ranges(a + b) == slot_ranges(a) + slot_ranges(b),
    decreases b.len(),
{
    if b.len() == 0 {
        assert(a + b =~= a);
        assert(slot_ranges(a) + slot_ranges(b) =~= slot_ranges(a));
    } else {
        lemma_slots_concat(a, b.drop_last());
        assert((a + b).drop_last() =~= a + b.drop_last());
        assert((a + b).last() == b.last());
        assert(slot_ranges(a + b) =~= slot_ranges(a) + slot_ranges(b));
    }
}

proof fn lemma_nodes_concat(a: Seq<Seq<char>>, b: Seq<Seq<char>>)
    ensures
        nodes_of(a + b) == nodes_of(a) + nodes_of(b),
    decreases b.len(),
{
    if b.len() == 0 {
        assert(a + b =~= a);
        assert(nodes_of(a) + nodes_of(b) =~= nodes_of(a));
    } else {
        lemma_nodes_concat(a, b.drop_last());
        assert((a + b).drop_last() =~= a + b.drop_last());
        assert((a + b).last() == b.last());
        assert(nodes_of(a + b) =~= nodes_of(a) + nodes_of(b));
    }
}

/// The last line with a name counts. A line with another name, or without a colon,
/// changes nothing.
pub proof fn lemma_last_report_counts(
    lines: Seq<Seq<char>>,
    k: Seq<char>,
    v: Seq<char>,
    key: Seq<char>,
    other: Seq<char>,
)
    requires
        !k.contains(':'),
        !other.contains(':'),
    ensures
        last_field(lines.push(k + seq![':'] + v), key) == (if text::trimmed(k) == key {
            Some(text::trimmed(v))
        } else {
            last_field(lines, key)
        }),
        last_field(lines.push(other), key) == last_field(lines, key),
        last_field(Seq::empty(), key) is None,
{
    let l = k + seq![':'] + v;
    assert(lines.push(l).drop_last() =~= lines);
    assert(lines.push(other).drop_last() =~= lines);
    assert forall|j: int| 0 <= j < k.len() implies l[j] != ':' by {
        assert(k.contains(k[j]));
    }
    text::lemma_first_index_is(l, ':', k.len() as int);
    assert(l.take(k.len() as int) =~= k);
    assert(l.skip(k.len() as int + 1) =~= v);
    text::lemma_cut_is(other, ':');
    if text::cut(other, ':') is Some {
        let i = text::first_index(other, ':');
        text::lemma_first_index_bounds(other, ':');
        assert(other[i] == ':');
    }
}

/// What a cluster reports of itself: its state, empty where it says nothing, and
/// the nodes that it knows, none where it says nothing or no number.
pub proof fn lemma_reported_is(s: Seq<char>, n: int)
    requires
        i32::MIN <= n <= i32::MAX,
    ensures
        match last_field(text::line_seq(s), "cluster_state"@) {
            Some(v) => reported_state(s) == v,
            None => reported_state(s).len() == 0,
        },
        last_field(text::line_seq(s), "cluster_known_nodes"@) == Some(number::written(n))
            ==> reported_nodes(s) == n,
        last_field(text::line_seq(s), "cluster_known_nodes"@) is None ==> reported_nodes(s) == 0,
{
    number::lemma_signed_round_trip(n, i32::MAX as int);
}

/// The last line that begins with a prefix counts.
pub proof fn lemma_last_behind_is(lines: Seq<Seq<char>>, line: Seq<char>, prefix: Seq<char>)
    ensures
        match last_behind(lines.push(line), prefix) {
            Some(v) => text::trimmed(line) == prefix + v || last_behind(lines, prefix) == Some(v),
            None => last_behind(lines, prefix) is None,
        },
        (exists|v: Seq<char>| text::trimmed(line) == #[trigger] (prefix + v)) ==> last_behind(
            lines.push(line),
            prefix,
        ) is Some && text::trimmed(line) == prefix + last_behind(lines.push(line), prefix)->0,
        (forall|v: Seq<char>| text::trimmed(line) != #[trigger] (prefix + v)) ==> last_behind(
            lines.push(line),
            prefix,
        ) == last_behind(lines, prefix),
        last_behind(Seq::empty(), prefix) is None,
{
    let t = text::trimmed(line);
    let p = prefix.len() as int;
    assert(lines.push(line).drop_last() =~= lines);
    if text::without_prefix(t, prefix) is Some {
        assert(t =~= prefix + t.skip(p));
    }
    if exists|v: Seq<char>| t == #[trigger] (prefix + v) {
        let v = choose|v: Seq<char>| t == #[trigger] (prefix + v);
        assert(t.take(p) =~= prefix);
        assert(t.skip(p) =~= v);
    }
}

/// A replica replicates from the host and the port that it names last. Whoever last
/// names another role, or misses one of the two, replicates from nowhere.
pub proof fn lemma_replicates_from(s: Seq<char>)
    ensures
        ({
            let lines = text::line_seq(s);
            let role = last_behind(lines, "role:"@);
            let host = last_behind(lines, "master_host:"@);
            let port = last_behind(lines, "master_port:"@);
            match replication_target(s) {
                Some((h, p)) => role == Some("slave"@) && host == Some(h) && port == Some(p),
                None => role != Some("slave"@) || host is None || port is None,
            }
        }),
{
}

/// Slots can be counted wherever ranges end no earlier than they begin and are fewer
/// than there are slots at all.
pub proof fn lemma_ranges_countable(ranges: Seq<(u16, u16)>)
    requires
        forall|i: int| 0 <= i < ranges.len() ==> (#[trigger] ranges[i]).0 <= ranges[i].1,
        ranges.len() <= u16::MAX,
    ensures
        ranges_ok(ranges),
{
    lemma_sum_bounded(ranges);
}

proof fn lemma_sum_bounded(ranges: Seq<(u16, u16)>)
    ensures
        slot_sum(ranges) <= 65_536 * ranges.len(),
    decreases ranges.len(),
{
    if ranges.len() > 0 {
        lemma_sum_bounded(ranges.drop_last());
    }
}

} // verus!
