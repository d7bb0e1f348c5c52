//! A map from texts, kept and walked in the order of its keys.

use vstd::prelude::*;

use crate::order;
use crate::text;

verus! {

/// A map whose keys are texts. Its entries stand in the order of their keys.
#[derive(Debug, PartialEq, Eq)]
pub struct StrMap<V> {
    entries: Vec<(String, V)>,
}

/// Whether the keys of `e` ascend, each once.
pub open spec fn keys_ascend<V>(e: Seq<(Seq<char>, V)>) -> bool {
    forall|i: int, j: int|
        0 <= i < j < e.len() ==> order::less((#[trigger] e[i]).0, (#[trigger] e[j]).0)
}

/// Whether `k` is the key of an entry.
pub open spec fn has_key<V>(e: Seq<(Seq<char>, V)>, k: Seq<char>) -> bool {
    exists|i: int| 0 <= i < e.len() && (#[trigger] e[i]).0 == k
}

/// The index of an entry with key `k`.
pub open spec fn place_of<V>(e: Seq<(Seq<char>, V)>, k: Seq<char>) -> int {
    choose|i: int| 0 <= i < e.len() && (#[trigger] e[i]).0 == k
}

/// The map that the entries `e` make up.
pub open spec fn map_of<V>(e: Seq<(Seq<char>, V)>) -> Map<Seq<char>, V> {
    Map::new(|k: Seq<char>| has_key(e, k), |k: Seq<char>| e[place_of(e, k)].1)
}

impl<V> StrMap<V> {
    #[verifier::type_invariant]
    spec fn ordered(self) -> bool {
        keys_ascend(self.pairs())
    }

    /// The entries in the order of their keys.
    pub closed spec fn pairs(self) -> Seq<(Seq<char>, V)> {
        self.entries@.map_values(|e: (String, V)| (e.0@, e.1))
    }
}

impl<V> View for StrMap<V> {
    type V = Map<Seq<char>, V>;

    open spec fn view(&self) -> Map<Seq<char>, V> {
        map_of(self.pairs())
    }
}

/// Each of the entries `e` is found in their map under its key.
pub proof fn lemma_map_of<V>(e: Seq<(Seq<char>, V)>, i: int)
    requires
        keys_ascend(e),
        0 <= i < e.len(),
    ensures
        map_of(e).contains_key(e[i].0),
        map_of(e)[e[i].0] == e[i].1,
{
    let k = e[i].0;
    let j = place_of(e, k);
    assert(has_key(e, k));
    assert(e[j].0 == k);
    order::lemma_less_irreflexive(k);
}

/// Entries with ascending keys are the only ones that make up their map.
pub proof fn lemma_pairs_unique<V>(a: Seq<(Seq<char>, V)>, b: Seq<(Seq<char>, V)>)
    requires
        keys_ascend(a),
        keys_ascend(b),
        map_of(a) == map_of(b),
    ensures
        a == b,
    decreases a.len() + b.len(),
{
    if a.len() == 0 && b.len() == 0 {
        assert(a =~= b);
    } else if a.len() == 0 {
        lemma_map_of(b, 0);
        assert(has_key(a, b[0].0));
    } else if b.len() == 0 {
        lemma_map_of(a, 0);
        assert(has_key(b, a[0].0));
    } else {
        let p = a.last();
        let q = b.last();
        lemma_map_of(a, a.len() - 1);
        lemma_map_of(b, b.len() - 1);
        assert(has_key(b, p.0));
        assert(has_key(a, q.0));
        let i = place_of(a, q.0);
        let j = place_of(b, p.0);
        assert(p.0 == q.0) by {
            if p.0 != q.0 {
                assert(order::less(a[i].0, p.0));
                assert(order::less(b[j].0, q.0));
                order::lemma_less_transitive(p.0, q.0, p.0);
                order::lemma_less_irreflexive(p.0);
            }
        }
        let a0 = a.drop_last();
        let b0 = b.drop_last();
        assert(map_of(a0) =~= map_of(a).remove(p.0)) by {
            lemma_map_of_drop_last(a);
        }
        assert(map_of(b0) =~= map_of(b).remove(q.0)) by {
            lemma_map_of_drop_last(b);
        }
        lemma_pairs_unique(a0, b0);
        assert(a =~= a0.push(p));
        assert(b =~= b0.push(q));
    }
}

proof fn lemma_map_of_drop_last<V>(a: Seq<(Seq<char>, V)>)
    requires
        keys_ascend(a),
        a.len() > 0,
    ensures
        map_of(a.drop_last()) == map_of(a).remove(a.last().0),
{
    let a0 = a.drop_last();
    let p = a.last();
    order::lemma_less_irreflexive(p.0);
    assert forall|k: Seq<char>|
        map_of(a0).contains_key(k) == #[trigger] map_of(a).remove(p.0).contains_key(k) by {
        if has_key(a0, k) {
            let i = place_of(a0, k);
            assert(a0[i] == a[i]);
            assert(has_key(a, k));
            assert(order::less(a[i].0, a[a.len() - 1].0));
        }
        if has_key(a, k) && k != p.0 {
            let i = place_of(a, k);
            assert(a0[i] == a[i]);
        }
    }
    assert forall|k: Seq<char>| #[trigger] map_of(a0).contains_key(k) implies map_of(a0)[k]
        == map_of(a).remove(p.0)[k] by {
        assert(has_key(a0, k));
        let i = place_of(a0, k);
        assert(a0[i] == a[i]);
        lemma_map_of(a0, i);
        lemma_map_of(a, i);
    }
    assert(map_of(a0) =~= map_of(a).remove(p.0));
}

proof fn lemma_put<V>(e: Seq<(Seq<char>, V)>, f: Seq<(Seq<char>, V)>, at: int, k: Seq<char>, v: V)
    requires
        keys_ascend(e),
        0 <= at <= e.len(),
        forall|i: int| 0 <= i < at ==> order::less((#[trigger] e[i]).0, k),
        ({
            ||| at < e.len() && e[at].0 == k && f == e.update(at, (k, v))
            ||| f == e.insert(at, (k, v)) && forall|i: int|
                at <= i < e.len() ==> order::less(k, (#[trigger] e[i]).0)
        }),
    ensures
        keys_ascend(f),
        map_of(f) == map_of(e).insert(k, v),
{
    let replaced = at < e.len() && e[at].0 == k && f == e.update(at, (k, v));
    assert(keys_ascend(f)) by {
        assert forall|i: int, j: int| 0 <= i < j < f.len() implies order::less(
            (#[trigger] f[i]).0,
            (#[trigger] f[j]).0,
        ) by {
            if replaced {
                assert(f[i].0 == e[i].0);
                assert(f[j].0 == e[j].0);
            } else {
                if i < at {
                    assert(f[i] == e[i]);
                }
                if i > at {
                    assert(f[i] == e[i - 1]);
                }
                if j < at {
                    assert(f[j] == e[j]);
                }
                if j > at {
                    assert(f[j] == e[j - 1]);
                }
            }
        }
    }
    let m = map_of(e).insert(k, v);
    lemma_map_of(f, at);
    assert forall|x: Seq<char>| map_of(f).contains_key(x) == #[trigger] m.contains_key(x) by {
        if has_key(f, x) && x != k {
            let i = place_of(f, x);
            if replaced || i < at {
                assert(f[i] == e[i]);
            } else {
                assert(f[i] == e[i - 1]);
            }
            assert(has_key(e, x));
        }
        if has_key(e, x) {
            let i = place_of(e, x);
            if replaced || i < at {
                assert(f[i].0 == e[i].0);
            } else {
                assert(f[i + 1] == e[i]);
            }
            assert(has_key(f, x));
        }
    }
    assert forall|x: Seq<char>| #[trigger] map_of(f).contains_key(x) implies map_of(f)[x]
        == m[x] by {
        if x != k {
            assert(has_key(f, x));
            let i = place_of(f, x);
            let j = if replaced || i < at {
                i
            } else {
                i - 1
            };
            assert(f[i] == e[j]);
            lemma_map_of(f, i);
            lemma_map_of(e, j);
        }
    }
    assert(map_of(f) =~= m);
}

/// Where `k`, which is no key of `e`, belongs among its keys.
proof fn lemma_gap<V>(e: Seq<(Seq<char>, V)>, k: Seq<char>) -> (at: int)
    requires
        keys_ascend(e),
        !has_key(e, k),
    ensures
        0 <= at <= e.len(),
        forall|i: int| 0 <= i < at ==> order::less((#[trigger] e[i]).0, k),
        forall|i: int| at <= i < e.len() ==> order::less(k, (#[trigger] e[i]).0),
    decreases e.len(),
{
    if e.len() == 0 {
        0
    } else {
        let l = e.len() - 1;
        assert(e[l].0 != k);
        order::lemma_less_total(e[l].0, k);
        if order::less(e[l].0, k) {
            assert forall|i: int| 0 <= i < e.len() implies order::less((#[trigger] e[i]).0, k) by {
                if i < l {
                    order::lemma_less_transitive(e[i].0, e[l].0, k);
                }
            }
            e.len() as int
        } else {
            let rest = e.drop_last();
            assert(!has_key(rest, k)) by {
                if has_key(rest, k) {
                    let i = place_of(rest, k);
                    assert(e[i] == rest[i]);
                }
            }
            assert(keys_ascend(rest)) by {
                assert forall|i: int, j: int| 0 <= i < j < rest.len() implies order::less(
                    (#[trigger] rest[i]).0,
                    (#[trigger] rest[j]).0,
                ) by {
                    assert(rest[i] == e[i] && rest[j] == e[j]);
                }
            }
            let at = lemma_gap(rest, k);
            assert forall|i: int| 0 <= i < at implies order::less((#[trigger] e[i]).0, k) by {
                assert(rest[i] == e[i]);
            }
            assert forall|i: int| at <= i < e.len() implies order::less(
                k,
                (#[trigger] e[i]).0,
            ) by {
                if i < l {
                    assert(rest[i] == e[i]);
                }
            }
            at
        }
    }
}

/// Every finite map is made up of entries with ascending keys.
pub proof fn lemma_arranged<V>(m: Map<Seq<char>, V>) -> (e: Seq<(Seq<char>, V)>)
    requires
        m.dom().finite(),
    ensures
        keys_ascend(e),
        map_of(e) == m,
    decreases m.dom().len(),
{
    if m.dom().len() == 0 {
        let e = Seq::<(Seq<char>, V)>::empty();
        assert(map_of(e) =~= m);
        e
    } else {
        let k = m.dom().choose();
        let rest = m.remove(k);
        assert(rest.dom() =~= m.dom().remove(k));
        let a = lemma_arranged(rest);
        assert(!has_key(a, k)) by {
            if has_key(a, k) {
                assert(map_of(a).contains_key(k));
            }
        }
        let at = lemma_gap(a, k);
        let e = a.insert(at, (k, m[k]));
        lemma_put(a, e, at, k, m[k]);
        assert(rest.insert(k, m[k]) =~= m);
        e
    }
}

/// The map of the first entries grows by the next one.
pub proof fn lemma_take_next<V>(e: Seq<(Seq<char>, V)>, i: int)
    requires
        keys_ascend(e),
        0 <= i < e.len(),
    ensures
        keys_ascend(e.take(i)),
        map_of(e.take(i + 1)) == map_of(e.take(i)).insert(e[i].0, e[i].1),
{
    let a = e.take(i);
    let b = e.take(i + 1);
    assert forall|x: int, y: int| 0 <= x < y < a.len() implies order::less(
        (#[trigger] a[x]).0,
        (#[trigger] a[y]).0,
    ) by {
        assert(a[x] == e[x] && a[y] == e[y]);
    }
    assert forall|x: int| 0 <= x < i implies order::less((#[trigger] a[x]).0, e[i].0) by {
        assert(a[x] == e[x]);
    }
    assert(b =~= a.insert(i, (e[i].0, e[i].1)));
    lemma_put(a, b, i, e[i].0, e[i].1);
}

impl<V> StrMap<V> {
    pub fn new() -> (m: Self)
        ensures
            m@ == Map::<Seq<char>, V>::empty(),
    {
        let m = StrMap { entries: Vec::new() };
        assert(m.pairs() =~= Seq::empty());
        assert(m@ =~= Map::<Seq<char>, V>::empty());
        m
    }

    /// The number of entries whose key comes before `key`.
    fn place(&self, key: &str) -> (at: usize)
        ensures
            at <= self.pairs().len(),
            forall|i: int| 0 <= i < at ==> order::less((#[trigger] self.pairs()[i]).0, key@),
            forall|i: int|
                at <= i < self.pairs().len() ==> (#[trigger] self.pairs()[i]).0 == key@
                    || order::less(key@, self.pairs()[i].0),
            forall|i: int|
                at < i < self.pairs().len() ==> order::less(key@, (#[trigger] self.pairs()[i]).0),
    {
        proof {
            use_type_invariant(self);
        }
        let mut at: usize = 0;
        while at < self.entries.len() && order::precedes(&self.entries[at].0, key)
            invariant
                at <= self.entries.len(),
                forall|i: int| 0 <= i < at ==> order::less((#[trigger] self.pairs()[i]).0, key@),
            decreases self.entries.len() - at,
        {
            assert(self.pairs()[at as int].0 == self.entries[at as int].0@);
            at = at + 1;
        }
        proof {
            let p = self.pairs();
            if at < self.entries.len() {
                assert(p[at as int].0 == self.entries[at as int].0@);
                order::lemma_less_total(p[at as int].0, key@);
                assert forall|i: int| at < i < p.len() implies order::less(
                    key@,
                    (#[trigger] p[i]).0,
                ) by {
                    if p[at as int].0 != key@ {
                        order::lemma_less_transitive(key@, p[at as int].0, p[i].0);
                    }
                }
            }
        }
        at
    }

    /// The number of entries, which ascend by key.
    pub fn len(&self) -> (n: usize)
        ensures
            n == self.pairs().len(),
            keys_ascend(self.pairs()),
    {
        proof {
            use_type_invariant(self);
        }
        self.entries.len()
    }

    /// The key of the `i`-th entry in the order of keys.
    pub fn key_at(&self, i: usize) -> (k: &str)
        requires
            i < self.pairs().len(),
        ensures
            k@ == self.pairs()[i as int].0,
    {
        &self.entries[i].0
    }

    /// The value of the `i`-th entry in the order of keys.
    pub fn value_at(&self, i: usize) -> (v: &V)
        requires
            i < self.pairs().len(),
        ensures
            *v == self.pairs()[i as int].1,
    {
        &self.entries[i].1
    }

    /// The value under `key`.
    pub fn get(&self, key: &str) -> (r: Option<&V>)
        ensures
            r is Some <==> self@.contains_key(key@),
            r matches Some(v) ==> *v == self@[key@],
    {
        proof {
            use_type_invariant(self);
        }
        let at: usize = self.place(key);
        if at < self.entries.len() && text::same(&self.entries[at].0, key) {
            proof {
                assert(self.pairs()[at as int].0 == key@);
                lemma_map_of(self.pairs(), at as int);
            }
            Some(&self.entries[at].1)
        } else {
            proof {
                order::lemma_less_irreflexive(key@);
                if at < self.entries.len() {
                    assert(self.pairs()[at as int].0 == self.entries[at as int].0@);
                }
                if has_key(self.pairs(), key@) {
                    let i = place_of(self.pairs(), key@);
                    assert(self.pairs()[i].0 == key@);
                }
            }
            None
        }
    }

    /// Puts `value` under `key`, in place of what was there.
    pub fn insert(&mut self, key: String, value: V)
        ensures
            final(self)@ == old(self)@.insert(key@, value),
    {
        proof {
            use_type_invariant(&*self);
        }
        let ghost e = self.pairs();
        let at: usize = self.place(&key);
        let replace = at < self.entries.len() && text::same(&self.entries[at].0, &key);
        let mut entries: Vec<(String, V)> = Vec::new();
        std::mem::swap(&mut entries, &mut self.entries);
        let ghost before = entries@;
        let ghost k = key@;
        if replace {
            entries.set(at, (key, value));
        } else {
            entries.insert(at, (key, value));
        }
        proof {
            let f = entries@.map_values(|e: (String, V)| (e.0@, e.1));
            assert(e =~= before.map_values(|e: (String, V)| (e.0@, e.1)));
            if replace {
                assert(e[at as int].0 == k);
                assert(f =~= e.update(at as int, (k, value)));
            } else {
                assert(f =~= e.insert(at as int, (k, value)));
            }
            lemma_put(e, f, at as int, k, value);
        }
        *self = StrMap { entries };
    }
}

/// What a map of texts holds.
pub open spec fn texts(m: StrMap<String>) -> Map<Seq<char>, Seq<char>> {
    m@.map_values(|s: String| s@)
}

impl Clone for StrMap<String> {
    fn clone(&self) -> (r: Self)
        ensures
            r.pairs() == self.pairs(),
            r@ == self@,
    {
        proof {
            use_type_invariant(self);
        }
        let mut entries: Vec<(String, String)> = Vec::new();
        let n: usize = self.entries.len();
        let mut i: usize = 0;
        while i < n
            invariant
                n == self.entries.len(),
                i <= n,
                entries.len() == i,
                forall|j: int|
                    0 <= j < i ==> (#[trigger] entries[j]).0 == self.entries[j].0 && entries[j].1
                        == self.entries[j].1,
            decreases n - i,
        {
            entries.push((self.entries[i].0.clone(), self.entries[i].1.clone()));
            i = i + 1;
        }
        assert(entries@.map_values(|e: (String, String)| (e.0@, e.1)) =~= self.pairs());
        StrMap { entries }
    }
}

} // verus!
