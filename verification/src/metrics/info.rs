//! The replies to `INFO`.

use vstd::prelude::*;

use crate::float_text;
use crate::number;
use crate::order;
use crate::str_map;
use crate::str_map::StrMap;
use crate::text;

verus! {

/// A reply to `INFO`: its fields by name. Names are unique across sections, so
/// that sections are not kept apart.
#[derive(Debug)]
pub struct Info {
    fields: StrMap<String>,
}

impl View for Info {
    type V = Map<Seq<char>, Seq<char>>;

    closed spec fn view(&self) -> Map<Seq<char>, Seq<char>> {
        str_map::texts(self.fields)
    }
}

/// The field that a line holds: what stands before and behind its first colon.
/// Blank lines and section headers hold none.
pub open spec fn field_of(line: Seq<char>) -> Option<(Seq<char>, Seq<char>)> {
    let t = text::trimmed(line);
    if t.len() == 0 || t[0] == '#' {
        None
    } else {
        text::cut(t, ':')
    }
}

/// The fields that lines hold; the last line with a name counts.
pub open spec fn fields_of(lines: Seq<Seq<char>>) -> Map<Seq<char>, Seq<char>>
    decreases lines.len(),
{
    if lines.len() == 0 {
        Map::empty()
    } else {
        let before = fields_of(lines.drop_last());
        match field_of(lines.last()) {
            Some((k, v)) => before.insert(k, v),
            None => before,
        }
    }
}

/// The entries of `m` in the order of their keys.
pub open spec fn sorted_entries(m: Map<Seq<char>, Seq<char>>) -> Seq<(Seq<char>, Seq<char>)> {
    choose|e: Seq<(Seq<char>, Seq<char>)>|
        #[trigger] str_map::keys_ascend(e) && str_map::map_of(e) == m
}

/// The pairs of a list such as `a=1,b=2`.
pub open spec fn kv_pairs(pieces: Seq<Seq<char>>) -> Seq<(Seq<char>, Seq<char>)>
    decreases pieces.len(),
{
    if pieces.len() == 0 {
        Seq::empty()
    } else {
        let before = kv_pairs(pieces.drop_last());
        match text::cut(pieces.last(), '=') {
            Some(p) => before.push(p),
            None => before,
        }
    }
}

/// The value of the last pair with this key.
pub open spec fn kv_value(pairs: Seq<(Seq<char>, Seq<char>)>, key: Seq<char>) -> Option<Seq<char>>
    decreases pairs.len(),
{
    if pairs.len() == 0 {
        None
    } else if pairs.last().0 == key {
        Some(pairs.last().1)
    } else {
        kv_value(pairs.drop_last(), key)
    }
}

/// The pairs of a field that holds a list.
pub open spec fn list_of(value: Seq<char>) -> Seq<(Seq<char>, Seq<char>)> {
    kv_pairs(text::pieces(value, ','))
}

/// The count that a list gives for `key`; zero where it gives none.
pub open spec fn kv_count(pairs: Seq<(Seq<char>, Seq<char>)>, key: Seq<char>) -> u64 {
    match kv_value(pairs, key) {
        Some(v) => match number::unsigned_value(v, u64::MAX as int) {
            Some(n) => n as u64,
            None => 0,
        },
        None => 0,
    }
}

/// The index behind `prefix` in a field's name, where there is nothing else.
pub open spec fn index_behind(key: Seq<char>, prefix: Seq<char>) -> Option<Seq<char>> {
    match text::without_prefix(key, prefix) {
        Some(i) => if i.len() > 0 && number::all_digits(i) {
            Some(i)
        } else {
            None
        },
        None => None,
    }
}

/// The keys of one database.
#[derive(Debug, PartialEq, Eq)]
pub struct KeyspaceDb {
    /// Index of the database, as it is used in a label.
    pub db: String,
    pub keys: u64,
    pub expires: u64,
}

pub ghost struct KeyspaceView {
    pub db: Seq<char>,
    pub keys: u64,
    pub expires: u64,
}

impl View for KeyspaceDb {
    type V = KeyspaceView;

    open spec fn view(&self) -> KeyspaceView {
        KeyspaceView { db: self.db@, keys: self.keys, expires: self.expires }
    }
}

/// What a list of databases holds.
pub open spec fn dbs_view(v: Seq<KeyspaceDb>) -> Seq<KeyspaceView> {
    v.map_values(|d: KeyspaceDb| d@)
}

/// A primary as a sentinel sees it.
#[derive(Debug, PartialEq, Eq)]
pub struct SentinelMaster {
    pub name: String,
    pub ok: bool,
    pub slaves: u64,
    pub sentinels: u64,
}

pub ghost struct MasterView {
    pub name: Seq<char>,
    pub ok: bool,
    pub slaves: u64,
    pub sentinels: u64,
}

impl View for SentinelMaster {
    type V = MasterView;

    open spec fn view(&self) -> MasterView {
        MasterView {
            name: self.name@,
            ok: self.ok,
            slaves: self.slaves,
            sentinels: self.sentinels,
        }
    }
}

/// What a list of primaries holds.
pub open spec fn masters_view(v: Seq<SentinelMaster>) -> Seq<MasterView> {
    v.map_values(|m: SentinelMaster| m@)
}

/// The database that a field describes. `db0_distrib_strings_sizes` and the like
/// describe none.
pub open spec fn db_of(key: Seq<char>, value: Seq<char>) -> Option<KeyspaceView> {
    match index_behind(key, "db"@) {
        Some(db) => Some(
            KeyspaceView {
                db,
                keys: kv_count(list_of(value), "keys"@),
                expires: kv_count(list_of(value), "expires"@),
            },
        ),
        None => None,
    }
}

/// The databases that fields describe.
pub open spec fn dbs_of(entries: Seq<(Seq<char>, Seq<char>)>) -> Seq<KeyspaceView>
    decreases entries.len(),
{
    if entries.len() == 0 {
        Seq::empty()
    } else {
        let before = dbs_of(entries.drop_last());
        match db_of(entries.last().0, entries.last().1) {
            Some(d) => before.push(d),
            None => before,
        }
    }
}

/// Whether `dbs` are the databases of the fields `m`: those with a field that is
/// named `db` and their index, in ascending order of the indices as texts, each
/// with the counts that its field lists.
pub open spec fn is_keyspace(dbs: Seq<KeyspaceView>, m: Map<Seq<char>, Seq<char>>) -> bool {
    &&& forall|i: int, j: int|
        0 <= i < j < dbs.len() ==> order::less((#[trigger] dbs[i]).db, (#[trigger] dbs[j]).db)
    &&& forall|i: int|
        0 <= i < dbs.len() ==> {
            let d = #[trigger] dbs[i];
            let key = "db"@ + d.db;
            &&& d.db.len() > 0
            &&& number::all_digits(d.db)
            &&& m.contains_key(key)
            &&& d.keys == kv_count(list_of(m[key]), "keys"@)
            &&& d.expires == kv_count(list_of(m[key]), "expires"@)
        }
    &&& forall|db: Seq<char>|
        db.len() > 0 && number::all_digits(db) && #[trigger] m.contains_key("db"@ + db)
            ==> exists|i: int| 0 <= i < dbs.len() && (#[trigger] dbs[i]).db == db
}

/// The primary that a field describes. `master_host` and the like describe none,
/// and neither does a list without a name.
pub open spec fn master_of(key: Seq<char>, value: Seq<char>) -> Option<MasterView> {
    match (index_behind(key, "master"@), kv_value(list_of(value), "name"@)) {
        (Some(_), Some(name)) => Some(
            MasterView {
                name,
                ok: kv_value(list_of(value), "status"@) == Some("ok"@),
                slaves: kv_count(list_of(value), "slaves"@),
                sentinels: kv_count(list_of(value), "sentinels"@),
            },
        ),
        _ => None,
    }
}

/// The primaries that fields describe.
pub open spec fn masters_of(entries: Seq<(Seq<char>, Seq<char>)>) -> Seq<MasterView>
    decreases entries.len(),
{
    if entries.len() == 0 {
        Seq::empty()
    } else {
        let before = masters_of(entries.drop_last());
        match master_of(entries.last().0, entries.last().1) {
            Some(m) => before.push(m),
            None => before,
        }
    }
}

/// What a list of pairs holds.
pub open spec fn pairs_view(v: Seq<(&str, &str)>) -> Seq<(Seq<char>, Seq<char>)> {
    v.map_values(|p: (&str, &str)| (p.0@, p.1@))
}

/// Splits a list such as `a=1,b=2` into its pairs, each at its first `=`.
pub fn parse_kv_list<'a>(s: &'a str) -> (out: Vec<(&'a str, &'a str)>)
    ensures
        pairs_view(out@) == list_of(s@),
{
    let parts = text::split(s, ',');
    let ghost all = text::pieces(s@, ',');
    let mut out: Vec<(&'a str, &'a str)> = Vec::new();
    let mut i: usize = 0;
    assert(pairs_view(out@) =~= kv_pairs(all.take(0)));
    while i < parts.len()
        invariant
            i <= parts.len(),
            all == text::views(parts@),
            pairs_view(out@) == kv_pairs(all.take(i as int)),
        decreases parts.len() - i,
    {
        proof {
            assert(all.take(i + 1).drop_last() =~= all.take(i as int));
            assert(all.take(i + 1).last() == parts[i as int]@);
        }
        if let Some((k, v)) = text::split_once(parts[i], '=') {
            let ghost before = out@;
            out.push((k, v));
            assert(pairs_view(out@) =~= pairs_view(before).push((k@, v@)));
        }
        i = i + 1;
    }
    assert(all.take(i as int) =~= all);
    out
}

/// The value of the last pair with this key.
fn kv_get<'a>(pairs: &Vec<(&'a str, &'a str)>, key: &str) -> (r: Option<&'a str>)
    ensures
        text::opt_str_view(r) == kv_value(pairs_view(pairs@), key@),
{
    let ghost all = pairs_view(pairs@);
    let mut i: usize = pairs.len();
    assert(all.take(i as int) =~= all);
    while i > 0
        invariant
            i <= pairs.len(),
            all == pairs_view(pairs@),
            kv_value(all, key@) == kv_value(all.take(i as int), key@),
        decreases i,
    {
        proof {
            assert(all.take(i as int).drop_last() =~= all.take(i - 1));
            assert(all.take(i as int).last() == all[i - 1]);
        }
        let (k, v) = pairs[i - 1];
        if text::same(k, key) {
            return Some(v);
        }
        i = i - 1;
    }
    None
}

/// The count that a list gives for `key`.
fn kv_number(pairs: &Vec<(&str, &str)>, key: &str) -> (n: u64)
    ensures
        n == kv_count(pairs_view(pairs@), key@),
{
    match kv_get(pairs, key) {
        Some(v) => match number::parse_u64(v) {
            Some(n) => n,
            None => 0,
        },
        None => 0,
    }
}

/// The index behind `prefix` in a field's name.
fn field_index<'a>(key: &'a str, prefix: &str) -> (r: Option<&'a str>)
    ensures
        text::opt_str_view(r) == index_behind(key@, prefix@),
{
    match text::strip_prefix(key, prefix) {
        None => None,
        Some(i) => {
            let v = text::chars_of(i);
            if v.len() == 0 {
                return None;
            }
            let mut k: usize = 0;
            while k < v.len()
                invariant
                    v@ == i@,
                    k <= v.len(),
                    forall|j: int| 0 <= j < k ==> number::is_digit(#[trigger] i@[j]),
                    text::without_prefix(key@, prefix@) == Some(i@),
                decreases v.len() - k,
            {
                let c: char = v[k];
                if !('0' <= c && c <= '9') {
                    assert(!number::is_digit(i@[k as int]));
                    return None;
                }
                k = k + 1;
            }
            Some(i)
        },
    }
}

impl Info {
    /// The fields in the order of their names.
    spec fn entries(self) -> Seq<(Seq<char>, Seq<char>)> {
        self.fields.pairs().map_values(|p: (Seq<char>, String)| (p.0, p.1@))
    }

    proof fn lemma_entries(self)
        requires
            str_map::keys_ascend(self.fields.pairs()),
        ensures
            self.entries() == sorted_entries(self@),
            str_map::keys_ascend(self.entries()),
            str_map::map_of(self.entries()) == self@,
    {
        let p = self.fields.pairs();
        let e = self.entries();
        assert(str_map::keys_ascend(e)) by {
            assert forall|i: int, j: int| 0 <= i < j < e.len() implies order::less(
                (#[trigger] e[i]).0,
                (#[trigger] e[j]).0,
            ) by {
                assert(e[i].0 == p[i].0 && e[j].0 == p[j].0);
            }
        }
        let m = str_map::map_of(e);
        assert(m.dom() =~= self@.dom()) by {
            assert forall|k: Seq<char>| #[trigger] m.dom().contains(k) == self@.dom().contains(
                k,
            ) by {
                if str_map::has_key(e, k) {
                    let i = str_map::place_of(e, k);
                    assert(p[i].0 == k);
                    assert(str_map::has_key(p, k));
                }
                if str_map::has_key(p, k) {
                    let i = str_map::place_of(p, k);
                    assert(e[i].0 == k);
                    assert(str_map::has_key(e, k));
                }
            }
        }
        assert forall|k: Seq<char>| #[trigger] m.contains_key(k) implies m[k] == self@[k] by {
            assert(str_map::has_key(e, k));
            let i = str_map::place_of(e, k);
            assert(e[i].0 == k);
            str_map::lemma_map_of(e, i);
            str_map::lemma_map_of(p, i);
        }
        assert(m =~= self@);
        let s = sorted_entries(self@);
        assert(str_map::keys_ascend(s) && str_map::map_of(s) == self@);
        str_map::lemma_pairs_unique(e, s);
    }

    /// Reads a reply. Lines that make no sense are passed over, for they should
    /// not cost the fields around them.
    pub fn parse(text: &str) -> (r: Self)
        ensures
            r@ == fields_of(text::line_seq(text@)),
    {
        let lines = text::lines(text);
        let ghost all = text::line_seq(text@);
        let mut fields: StrMap<String> = StrMap::new();
        let mut i: usize = 0;
        assert(str_map::texts(fields) =~= fields_of(all.take(0)));
        while i < lines.len()
            invariant
                i <= lines.len(),
                all == text::views(lines@),
                str_map::texts(fields) == fields_of(all.take(i as int)),
            decreases lines.len() - i,
        {
            proof {
                assert(all.take(i + 1).drop_last() =~= all.take(i as int));
                assert(all.take(i + 1).last() == lines[i as int]@);
                reveal_strlit("#");
            }
            let line = text::trim(lines[i]);
            let ghost before = str_map::texts(fields);
            let header = text::starts_with(line, "#");
            proof {
                let t = line@;
                if t.len() > 0 {
                    assert(t.take(1)[0] == t[0]);
                    assert("#"@.len() == 1 && "#"@[0] == '#');
                    if t[0] == '#' {
                        assert(t.take(1) =~= "#"@);
                    }
                }
            }
            if !line.is_empty() && !header {
                if let Some((k, v)) = text::split_once(line, ':') {
                    fields.insert(k.to_string(), v.to_string());
                    assert(str_map::texts(fields) =~= before.insert(k@, v@));
                }
            }
            i = i + 1;
        }
        assert(all.take(i as int) =~= all);
        Info { fields }
    }

    /// The value of a field.
    pub fn get(&self, key: &str) -> (r: Option<&str>)
        ensures
            text::opt_str_view(r) == (if self@.contains_key(key@) {
                Some(self@[key@])
            } else {
                None
            }),
    {
        match self.fields.get(key) {
            Some(s) => Some(s.as_str()),
            None => None,
        }
    }

    /// The value of a field as the text of a number, without white space around
    /// it; nothing where it is none. A field that turns into a word, be it one
    /// that stands for infinity, is no number.
    pub fn num(&self, key: &str) -> (r: Option<&str>)
        ensures
            text::opt_str_view(r) == number_in(self@, key@),
    {
        match self.get(key) {
            Some(v) => {
                let t = text::trim(v);
                if float_text::is_literal(t) {
                    Some(t)
                } else {
                    None
                }
            },
            None => None,
        }
    }

    /// Whether a field holds this word; nothing where there is no such field.
    pub fn is(&self, key: &str, value: &str) -> (r: Option<bool>)
        ensures
            r == word_in(self@, key@, value@),
    {
        match self.get(key) {
            Some(v) => Some(text::same(text::trim(v), value)),
            None => None,
        }
    }

    /// The keys of each database, in the order of the fields' names.
    pub fn keyspace(&self) -> (dbs: Vec<KeyspaceDb>)
        ensures
            dbs_view(dbs@) == dbs_of(sorted_entries(self@)),
            is_keyspace(dbs_view(dbs@), self@),
    {
        let n: usize = self.fields.len();
        let ghost e = self.entries();
        proof {
            self.lemma_entries();
        }
        let mut dbs: Vec<KeyspaceDb> = Vec::new();
        let mut i: usize = 0;
        assert(dbs_view(dbs@) =~= dbs_of(e.take(0)));
        while i < n
            invariant
                n == self.fields.pairs().len(),
                e == self.entries(),
                i <= n,
                dbs_view(dbs@) == dbs_of(e.take(i as int)),
            decreases n - i,
        {
            let key = self.fields.key_at(i);
            let value = self.fields.value_at(i).as_str();
            proof {
                assert(e[i as int] == (key@, value@));
                assert(e.take(i + 1).drop_last() =~= e.take(i as int));
                assert(e.take(i + 1).last() == e[i as int]);
            }
            if let Some(index) = field_index(key, "db") {
                let kv = parse_kv_list(value);
                let ghost before = dbs@;
                let d = KeyspaceDb {
                    db: index.to_string(),
                    keys: kv_number(&kv, "keys"),
                    expires: kv_number(&kv, "expires"),
                };
                dbs.push(d);
                assert(dbs_view(dbs@) =~= dbs_view(before).push(d@));
            }
            i = i + 1;
        }
        assert(e.take(n as int) =~= e);
        proof {
            lemma_dbs_of(e);
        }
        dbs
    }

    /// The primaries that a sentinel monitors, in the order of the fields' names.
    pub fn sentinel_masters(&self) -> (masters: Vec<SentinelMaster>)
        ensures
            masters_view(masters@) == masters_of(sorted_entries(self@)),
            str_map::keys_ascend(sorted_entries(self@)),
            str_map::map_of(sorted_entries(self@)) == self@,
    {
        let n: usize = self.fields.len();
        let ghost e = self.entries();
        proof {
            self.lemma_entries();
        }
        let mut masters: Vec<SentinelMaster> = Vec::new();
        let mut i: usize = 0;
        assert(masters_view(masters@) =~= masters_of(e.take(0)));
        while i < n
            invariant
                n == self.fields.pairs().len(),
                e == self.entries(),
                i <= n,
                masters_view(masters@) == masters_of(e.take(i as int)),
            decreases n - i,
        {
            let key = self.fields.key_at(i);
            let value = self.fields.value_at(i).as_str();
            proof {
                assert(e[i as int] == (key@, value@));
                assert(e.take(i + 1).drop_last() =~= e.take(i as int));
                assert(e.take(i + 1).last() == e[i as int]);
            }
            if field_index(key, "master").is_some() {
                let kv = parse_kv_list(value);
                if let Some(name) = kv_get(&kv, "name") {
                    let ok = match kv_get(&kv, "status") {
                        Some(s) => text::same(s, "ok"),
                        None => false,
                    };
                    let ghost before = masters@;
                    let m = SentinelMaster {
                        name: name.to_string(),
                        ok,
                        slaves: kv_number(&kv, "slaves"),
                        sentinels: kv_number(&kv, "sentinels"),
                    };
                    masters.push(m);
                    assert(masters_view(masters@) =~= masters_view(before).push(m@));
                }
            }
            i = i + 1;
        }
        assert(e.take(n as int) =~= e);
        masters
    }
}

impl Default for Info {
    fn default() -> (r: Self)
        ensures
            r@ == Map::<Seq<char>, Seq<char>>::empty(),
    {
        let r = Info { fields: StrMap::new() };
        assert(r@ =~= Map::<Seq<char>, Seq<char>>::empty());
        r
    }
}

impl Clone for Info {
    fn clone(&self) -> (r: Self)
        ensures
            r@ == self@,
    {
        Info { fields: self.fields.clone() }
    }
}

/// The text of the number that a field holds.
pub open spec fn number_in(m: Map<Seq<char>, Seq<char>>, key: Seq<char>) -> Option<Seq<char>> {
    if m.contains_key(key) && float_text::literal(text::trimmed(m[key])) is Some {
        Some(text::trimmed(m[key]))
    } else {
        None
    }
}

/// Whether a field holds this word.
pub open spec fn word_in(m: Map<Seq<char>, Seq<char>>, key: Seq<char>, word: Seq<char>) -> Option<
    bool,
> {
    if m.contains_key(key) {
        Some(text::trimmed(m[key]) == word)
    } else {
        None
    }
}

/// The fields of a reply are finitely many.
pub proof fn lemma_fields_finite(lines: Seq<Seq<char>>)
    ensures
        fields_of(lines).dom().finite(),
    decreases lines.len(),
{
    if lines.len() > 0 {
        lemma_fields_finite(lines.drop_last());
    }
}

/// The entries of a finite map can be put in the order of their keys, in one way
/// only, and make up the map again.
pub proof fn lemma_sorted_entries(m: Map<Seq<char>, Seq<char>>)
    requires
        m.dom().finite(),
    ensures
        str_map::keys_ascend(sorted_entries(m)),
        str_map::map_of(sorted_entries(m)) == m,
        forall|e: Seq<(Seq<char>, Seq<char>)>| #[trigger]
            str_map::keys_ascend(e) && str_map::map_of(e) == m ==> e == sorted_entries(m),
{
    let a = str_map::lemma_arranged(m);
    assert(str_map::keys_ascend(a) && str_map::map_of(a) == m);
    let s = sorted_entries(m);
    assert forall|e: Seq<(Seq<char>, Seq<char>)>| #[trigger]
        str_map::keys_ascend(e) && str_map::map_of(e) == m implies e == s by {
        str_map::lemma_pairs_unique(e, s);
    }
}

/// The databases of a reply come in ascending order, each once, and are exactly
/// those that a field named `db` and an index describes.
pub proof fn lemma_keyspace(m: Map<Seq<char>, Seq<char>>)
    requires
        m.dom().finite(),
    ensures
        is_keyspace(dbs_of(sorted_entries(m)), m),
{
    lemma_sorted_entries(m);
    lemma_dbs_of(sorted_entries(m));
}

proof fn lemma_index_behind(key: Seq<char>, prefix: Seq<char>)
    ensures
        index_behind(key, prefix) matches Some(i) ==> key == prefix + i && i.len() > 0
            && number::all_digits(i),
        forall|i: Seq<char>|
            i.len() > 0 && number::all_digits(i) && key == #[trigger] (prefix + i)
                ==> index_behind(key, prefix) == Some(i),
{
    if index_behind(key, prefix) is Some {
        assert(key =~= prefix + index_behind(key, prefix)->0);
    }
    assert forall|i: Seq<char>|
        i.len() > 0 && number::all_digits(i) && key == #[trigger] (prefix + i) implies index_behind(
        key,
        prefix,
    ) == Some(i) by {
        assert(key.take(prefix.len() as int) =~= prefix);
        assert(key.skip(prefix.len() as int) =~= i);
    }
}

proof fn lemma_less_behind(prefix: Seq<char>, a: Seq<char>, b: Seq<char>)
    ensures
        order::less(prefix + a, prefix + b) == order::less(a, b),
    decreases prefix.len(),
{
    if prefix.len() == 0 {
        assert(prefix + a =~= a);
        assert(prefix + b =~= b);
    } else {
        let rest = prefix.skip(1);
        lemma_less_behind(rest, a, b);
        assert((prefix + a).skip(1) =~= rest + a);
        assert((prefix + b).skip(1) =~= rest + b);
    }
}

/// Each database comes from an entry, in the order of the entries.
proof fn lemma_db_sources(e: Seq<(Seq<char>, Seq<char>)>)
    requires
        str_map::keys_ascend(e),
    ensures
        forall|i: int|
            0 <= i < dbs_of(e).len() ==> exists|k: int|
                0 <= k < e.len() && db_of((#[trigger] e[k]).0, e[k].1) == Some(
                    #[trigger] dbs_of(e)[i],
                ),
        forall|k: int|
            0 <= k < e.len() && db_of((#[trigger] e[k]).0, e[k].1) is Some ==> dbs_of(e).contains(
                db_of(e[k].0, e[k].1)->0,
            ),
        forall|i: int, j: int|
            0 <= i < j < dbs_of(e).len() ==> order::less(
                (#[trigger] dbs_of(e)[i]).db,
                (#[trigger] dbs_of(e)[j]).db,
            ),
    decreases e.len(),
{
    if e.len() > 0 {
        let l = e.len() - 1;
        let rest = e.drop_last();
        assert forall|i: int, j: int| 0 <= i < j < rest.len() implies order::less(
            (#[trigger] rest[i]).0,
            (#[trigger] rest[j]).0,
        ) by {
            assert(rest[i] == e[i] && rest[j] == e[j]);
        }
        lemma_db_sources(rest);
        let before = dbs_of(rest);
        let all = dbs_of(e);
        assert forall|i: int| 0 <= i < all.len() implies exists|k: int|
            0 <= k < e.len() && db_of((#[trigger] e[k]).0, e[k].1) == Some(#[trigger] all[i]) by {
            if i < before.len() {
                assert(all[i] == before[i]);
                let k = choose|k: int|
                    0 <= k < rest.len() && db_of((#[trigger] rest[k]).0, rest[k].1) == Some(
                        before[i],
                    );
                assert(e[k] == rest[k]);
            } else {
                assert(e[l] == e.last());
            }
        }
        assert forall|k: int|
            0 <= k < e.len() && db_of((#[trigger] e[k]).0, e[k].1) is Some implies all.contains(
            db_of(e[k].0, e[k].1)->0,
        ) by {
            let d = db_of(e[k].0, e[k].1)->0;
            if k < l {
                assert(rest[k] == e[k]);
                let i = choose|i: int| 0 <= i < before.len() && before[i] == d;
                assert(all[i] == d);
            } else {
                assert(all[before.len() as int] == d);
            }
        }
        assert forall|i: int, j: int| 0 <= i < j < all.len() implies order::less(
            (#[trigger] all[i]).db,
            (#[trigger] all[j]).db,
        ) by {
            assert(all[i] == before[i]);
            if j < before.len() {
                assert(all[j] == before[j]);
            } else {
                let k = choose|k: int|
                    0 <= k < rest.len() && db_of((#[trigger] rest[k]).0, rest[k].1) == Some(
                        before[i],
                    );
                assert(rest[k] == e[k]);
                assert(order::less(e[k].0, e[l].0));
                lemma_index_behind(e[k].0, "db"@);
                lemma_index_behind(e[l].0, "db"@);
                lemma_less_behind("db"@, all[i].db, all[j].db);
            }
        }
    }
}

proof fn lemma_dbs_of(e: Seq<(Seq<char>, Seq<char>)>)
    requires
        str_map::keys_ascend(e),
    ensures
        is_keyspace(dbs_of(e), str_map::map_of(e)),
{
    lemma_db_sources(e);
    let dbs = dbs_of(e);
    let m = str_map::map_of(e);
    assert forall|i: int| 0 <= i < dbs.len() implies {
        let d = #[trigger] dbs[i];
        let key = "db"@ + d.db;
        &&& d.db.len() > 0
        &&& number::all_digits(d.db)
        &&& m.contains_key(key)
        &&& d.keys == kv_count(list_of(m[key]), "keys"@)
        &&& d.expires == kv_count(list_of(m[key]), "expires"@)
    } by {
        let k = choose|k: int|
            0 <= k < e.len() && db_of((#[trigger] e[k]).0, e[k].1) == Some(dbs[i]);
        lemma_index_behind(e[k].0, "db"@);
        str_map::lemma_map_of(e, k);
    }
    assert forall|db: Seq<char>|
        db.len() > 0 && number::all_digits(db) && #[trigger] m.contains_key(
            "db"@ + db,
        ) implies exists|i: int| 0 <= i < dbs.len() && (#[trigger] dbs[i]).db == db by {
        let key = "db"@ + db;
        assert(str_map::has_key(e, key));
        let k = str_map::place_of(e, key);
        lemma_index_behind(e[k].0, "db"@);
        let d = db_of(e[k].0, e[k].1)->0;
        assert(dbs.contains(d));
        let i = choose|i: int| 0 <= i < dbs.len() && dbs[i] == d;
        assert(dbs[i].db == db);
    }
}

/// Each primary comes from a field that is named `master` and an index.
pub proof fn lemma_master_field(m: Map<Seq<char>, Seq<char>>, c: int) -> (key: Seq<char>)
    requires
        m.dom().finite(),
        0 <= c < masters_of(sorted_entries(m)).len(),
    ensures
        ({
            let p = masters_of(sorted_entries(m))[c];
            let list = list_of(m[key]);
            &&& m.contains_key(key)
            &&& exists|index: Seq<char>|
                index.len() > 0 && number::all_digits(index) && key == #[trigger] ("master"@
                    + index)
            &&& kv_value(list, "name"@) == Some(p.name)
            &&& p.ok <==> kv_value(list, "status"@) == Some("ok"@)
            &&& p.slaves == kv_count(list, "slaves"@)
            &&& p.sentinels == kv_count(list, "sentinels"@)
        }),
{
    lemma_sorted_entries(m);
    let e = sorted_entries(m);
    let k = lemma_master_source(e, c);
    str_map::lemma_map_of(e, k);
    lemma_index_behind(e[k].0, "master"@);
    let index = index_behind(e[k].0, "master"@)->0;
    assert(e[k].0 == "master"@ + index);
    e[k].0
}

proof fn lemma_master_source(e: Seq<(Seq<char>, Seq<char>)>, c: int) -> (k: int)
    requires
        0 <= c < masters_of(e).len(),
    ensures
        0 <= k < e.len(),
        master_of(e[k].0, e[k].1) == Some(masters_of(e)[c]),
    decreases e.len(),
{
    let rest = e.drop_last();
    let before = masters_of(rest);
    if c < before.len() {
        let k = lemma_master_source(rest, c);
        assert(e[k] == rest[k]);
        assert(masters_of(e)[c] == before[c]);
        k
    } else {
        assert(e[e.len() - 1] == e.last());
        e.len() - 1
    }
}

/// Every field that is named `master` and an index, and gives a name, describes a
/// primary.
pub proof fn lemma_master_listed(m: Map<Seq<char>, Seq<char>>, index: Seq<char>) -> (c: int)
    requires
        m.dom().finite(),
        index.len() > 0,
        number::all_digits(index),
        m.contains_key("master"@ + index),
        kv_value(list_of(m["master"@ + index]), "name"@) is Some,
    ensures
        ({
            let masters = masters_of(sorted_entries(m));
            let list = list_of(m["master"@ + index]);
            &&& 0 <= c < masters.len()
            &&& Some(masters[c].name) == kv_value(list, "name"@)
            &&& masters[c].ok <==> kv_value(list, "status"@) == Some("ok"@)
            &&& masters[c].slaves == kv_count(list, "slaves"@)
            &&& masters[c].sentinels == kv_count(list, "sentinels"@)
        }),
{
    lemma_sorted_entries(m);
    let e = sorted_entries(m);
    let key = "master"@ + index;
    assert(str_map::has_key(e, key));
    let k = str_map::place_of(e, key);
    assert(e[k].0 == key);
    str_map::lemma_map_of(e, k);
    lemma_index_behind(key, "master"@);
    lemma_master_place(e, k)
}

proof fn lemma_master_place(e: Seq<(Seq<char>, Seq<char>)>, k: int) -> (c: int)
    requires
        0 <= k < e.len(),
        master_of(e[k].0, e[k].1) is Some,
    ensures
        0 <= c < masters_of(e).len(),
        masters_of(e)[c] == master_of(e[k].0, e[k].1)->0,
    decreases e.len(),
{
    let rest = e.drop_last();
    let before = masters_of(rest);
    if k < rest.len() {
        assert(rest[k] == e[k]);
        let c = lemma_master_place(rest, k);
        assert(masters_of(e)[c] == before[c]);
        c
    } else {
        before.len() as int
    }
}

/// The pairs of a list stand between its commas, each cut at its first `=`; what has
/// none is no pair.
pub proof fn lemma_list_is_cut(a: Seq<char>, b: Seq<char>, k: Seq<char>, v: Seq<char>)
    requires
        !k.contains('='),
        !k.contains(','),
        !v.contains(','),
    ensures
        list_of(a + seq![','] + b) == list_of(a) + list_of(b),
        list_of(k + seq!['='] + v) == seq![(k, v)],
        list_of(k) == Seq::<(Seq<char>, Seq<char>)>::empty(),
{
    text::lemma_pieces_split(a, ',', b);
    lemma_kv_pairs_concat(text::pieces(a, ','), text::pieces(b, ','));
    let s = k + seq!['='] + v;
    assert(!s.contains(',')) by {
        if s.contains(',') {
            let i = choose|i: int| 0 <= i < s.len() && s[i] == ',';
            if i < k.len() {
                assert(k[i] == ',');
            } else if i > k.len() {
                assert(v[i - k.len() - 1] == ',');
            }
        }
    }
    text::lemma_pieces_split(s, ',', Seq::empty());
    text::lemma_pieces_split(k, ',', Seq::empty());
    text::lemma_cut_is(s, '=');
    text::lemma_cut_is(k, '=');
    assert forall|j: int| 0 <= j < k.len() implies s[j] != '=' by {
        assert(s[j] == k[j]);
        assert(k.contains(k[j]));
    }
    assert(s[k.len() as int] == '=');
    text::lemma_first_index_is(s, '=', k.len() as int);
    assert(s.take(k.len() as int) =~= k);
    assert(s.skip(k.len() as int + 1) =~= v);
    let one = seq![s];
    assert(one.drop_last() =~= Seq::<Seq<char>>::empty());
    assert(kv_pairs(one.drop_last()) =~= Seq::<(Seq<char>, Seq<char>)>::empty());
    assert(kv_pairs(one) =~= seq![(k, v)]);
    let bare = seq![k];
    assert(bare.drop_last() =~= Seq::<Seq<char>>::empty());
    if let Some((x, y)) = text::cut(k, '=') {
        assert(k[x.len() as int] == '=');
    }
    assert(kv_pairs(bare) =~= Seq::<(Seq<char>, Seq<char>)>::empty());
}

proof fn lemma_kv_pairs_concat(a: Seq<Seq<char>>, b: Seq<Seq<char>>)
    ensures
        kv_pairs(a + b) == kv_pairs(a) + kv_pairs(b),
    decreases b.len(),
{
    if b.len() == 0 {
        assert(a + b =~= a);
        assert(kv_pairs(a) + kv_pairs(b) =~= kv_pairs(a));
    } else {
        lemma_kv_pairs_concat(a, b.drop_last());
        assert((a + b).drop_last() =~= a + b.drop_last());
        assert((a + b).last() == b.last());
        assert(kv_pairs(a + b) =~= kv_pairs(a) + kv_pairs(b));
    }
}

/// The last pair with a key counts. A count is what that pair writes down as an
/// unsigned number of 64 bits, and zero otherwise.
pub proof fn lemma_last_pair_counts(
    pairs: Seq<(Seq<char>, Seq<char>)>,
    k: Seq<char>,
    v: Seq<char>,
    key: Seq<char>,
)
    ensures
        kv_value(pairs.push((k, v)), key) == (if k == key {
            Some(v)
        } else {
            kv_value(pairs, key)
        }),
        kv_value(Seq::empty(), key) is None,
        kv_count(pairs, key) == (match kv_value(pairs, key) {
            None => 0,
            Some(w) => match number::unsigned_value(w, u64::MAX as int) {
                Some(n) => n,
                None => 0,
            },
        }),
{
    assert(pairs.push((k, v)).drop_last() =~= pairs);
}

/// A line holds a field exactly where, without white space around it, it has a colon
/// and is no comment. The name ends at the first colon.
pub proof fn lemma_field_is(line: Seq<char>)
    ensures
        match field_of(line) {
            Some((k, v)) => text::trimmed(line) == k + seq![':'] + v && !k.contains(':')
                && text::trimmed(line)[0] != '#',
            None => text::trimmed(line).len() == 0 || text::trimmed(line)[0] == '#'
                || !text::trimmed(line).contains(':'),
        },
{
    text::lemma_cut_is(text::trimmed(line), ':');
}

/// Of several lines with one name the last counts, and lines that hold no field
/// change nothing.
pub proof fn lemma_last_line_counts(lines: Seq<Seq<char>>, line: Seq<char>)
    ensures
        match field_of(line) {
            Some((k, v)) => fields_of(lines.push(line)).contains_key(k) && fields_of(
                lines.push(line),
            )[k] == v && fields_of(lines.push(line)).remove(k) == fields_of(lines).remove(k),
            None => fields_of(lines.push(line)) == fields_of(lines),
        },
{
    assert(lines.push(line).drop_last() =~= lines);
    if let Some((k, v)) = field_of(line) {
        assert(fields_of(lines.push(line)).remove(k) =~= fields_of(lines).remove(k));
    }
}

} // verus!
