//! The order of texts, and stable sorting by it.

use vstd::prelude::*;

use crate::text;

verus! {

/// Whether `a` comes before `b`: by the first character in which they differ,
/// a proper prefix coming first.
pub open spec fn less(a: Seq<char>, b: Seq<char>) -> bool
    decreases a.len(),
{
    if b.len() == 0 {
        false
    } else if a.len() == 0 {
        true
    } else if a[0] != b[0] {
        a[0] < b[0]
    } else {
        less(a.skip(1), b.skip(1))
    }
}

/// Whether the list of texts `a` comes before `b`, compared text by text.
pub open spec fn list_less(a: Seq<Seq<char>>, b: Seq<Seq<char>>) -> bool
    decreases a.len(),
{
    if b.len() == 0 {
        false
    } else if a.len() == 0 {
        true
    } else if a[0] != b[0] {
        less(a[0], b[0])
    } else {
        list_less(a.skip(1), b.skip(1))
    }
}

pub proof fn lemma_less_irreflexive(a: Seq<char>)
    ensures
        !less(a, a),
    decreases a.len(),
{
    if a.len() > 0 {
        lemma_less_irreflexive(a.skip(1));
    }
}

pub proof fn lemma_less_transitive(a: Seq<char>, b: Seq<char>, c: Seq<char>)
    requires
        less(a, b),
        less(b, c),
    ensures
        less(a, c),
    decreases a.len(),
{
    if a.len() > 0 && a[0] == b[0] && b[0] == c[0] {
        lemma_less_transitive(a.skip(1), b.skip(1), c.skip(1));
    }
}

pub proof fn lemma_less_total(a: Seq<char>, b: Seq<char>)
    ensures
        less(a, b) || less(b, a) || a == b,
    decreases a.len(),
{
    if a.len() > 0 && b.len() > 0 && a[0] == b[0] {
        lemma_less_total(a.skip(1), b.skip(1));
        if a.skip(1) == b.skip(1) {
            assert forall|i: int| 0 <= i < a.len() implies a[i] == b[i] by {
                if i > 0 {
                    assert(a.skip(1)[i - 1] == b.skip(1)[i - 1]);
                }
            }
            assert(a.len() == a.skip(1).len() + 1);
            assert(b.len() == b.skip(1).len() + 1);
            assert(a =~= b);
        }
    } else if a.len() == 0 && b.len() == 0 {
        assert(a =~= b);
    }
}

pub proof fn lemma_list_less_irreflexive(a: Seq<Seq<char>>)
    ensures
        !list_less(a, a),
    decreases a.len(),
{
    if a.len() > 0 {
        lemma_list_less_irreflexive(a.skip(1));
    }
}

pub proof fn lemma_list_less_transitive(a: Seq<Seq<char>>, b: Seq<Seq<char>>, c: Seq<Seq<char>>)
    requires
        list_less(a, b),
        list_less(b, c),
    ensures
        list_less(a, c),
    decreases a.len(),
{
    if a.len() > 0 {
        if a[0] == b[0] && b[0] == c[0] {
            lemma_list_less_transitive(a.skip(1), b.skip(1), c.skip(1));
        } else if a[0] != b[0] && b[0] != c[0] {
            lemma_less_transitive(a[0], b[0], c[0]);
            if a[0] == c[0] {
                lemma_less_irreflexive(a[0]);
            }
        }
    }
}

pub proof fn lemma_list_less_total(a: Seq<Seq<char>>, b: Seq<Seq<char>>)
    ensures
        list_less(a, b) || list_less(b, a) || a == b,
    decreases a.len(),
{
    if a.len() > 0 && b.len() > 0 {
        if a[0] == b[0] {
            lemma_list_less_total(a.skip(1), b.skip(1));
            if a.skip(1) == b.skip(1) {
                assert forall|i: int| 0 <= i < a.len() implies a[i] == b[i] by {
                    if i > 0 {
                        assert(a.skip(1)[i - 1] == b.skip(1)[i - 1]);
                    }
                }
                assert(a.len() == a.skip(1).len() + 1);
                assert(b.len() == b.skip(1).len() + 1);
                assert(a =~= b);
            }
        } else {
            lemma_less_total(a[0], b[0]);
        }
    } else if a.len() == 0 && b.len() == 0 {
        assert(a =~= b);
    }
}

/// Whether `a` comes before `b`.
pub fn precedes(a: &str, b: &str) -> (r: bool)
    ensures
        r == less(a@, b@),
{
    let v = text::chars_of(a);
    let w = text::chars_of(b);
    let mut i: usize = 0;
    assert(a@.skip(0) =~= a@);
    assert(b@.skip(0) =~= b@);
    loop
        invariant
            v@ == a@,
            w@ == b@,
            i <= v.len(),
            i <= w.len(),
            less(a@, b@) == less(a@.skip(i as int), b@.skip(i as int)),
        decreases v.len() - i,
    {
        let ghost x = a@.skip(i as int);
        let ghost y = b@.skip(i as int);
        if i == w.len() {
            return false;
        }
        if i == v.len() {
            return true;
        }
        assert(x[0] == v[i as int] && y[0] == w[i as int]);
        if v[i] != w[i] {
            return v[i] < w[i];
        }
        assert(x.skip(1) =~= a@.skip(i + 1));
        assert(y.skip(1) =~= b@.skip(i + 1));
        i = i + 1;
    }
}

/// Whether the list of texts `a` comes before `b`.
pub fn list_precedes(a: &Vec<&str>, b: &Vec<&str>) -> (r: bool)
    ensures
        r == list_less(text::views(a@), text::views(b@)),
{
    let ghost va = text::views(a@);
    let ghost vb = text::views(b@);
    let mut i: usize = 0;
    assert(va.skip(0) =~= va);
    assert(vb.skip(0) =~= vb);
    loop
        invariant
            va == text::views(a@),
            vb == text::views(b@),
            i <= a.len(),
            i <= b.len(),
            list_less(va, vb) == list_less(va.skip(i as int), vb.skip(i as int)),
        decreases a.len() - i,
    {
        let ghost x = va.skip(i as int);
        let ghost y = vb.skip(i as int);
        if i == b.len() {
            return false;
        }
        if i == a.len() {
            return true;
        }
        assert(x[0] == a[i as int]@ && y[0] == b[i as int]@);
        if !text::same(a[i], b[i]) {
            return precedes(a[i], b[i]);
        }
        assert(x.skip(1) =~= va.skip(i + 1));
        assert(y.skip(1) =~= vb.skip(i + 1));
        i = i + 1;
    }
}

/// What the keys of a sort hold.
pub open spec fn key_views(keys: Seq<Vec<&str>>) -> Seq<Seq<Seq<char>>> {
    keys.map_values(|k: Vec<&str>| text::views(k@))
}

/// Whether item `i` stands before item `j` in a stable sort by `keys`.
pub open spec fn comes_first(keys: Seq<Seq<Seq<char>>>, i: int, j: int) -> bool {
    list_less(keys[i], keys[j]) || (keys[i] == keys[j] && i < j)
}

/// Whether `perm` lists the indices of `keys` in the order of their keys, those
/// with the same key in their own order. There is just one such list.
pub open spec fn is_stable_order(keys: Seq<Seq<Seq<char>>>, perm: Seq<usize>) -> bool {
    &&& perm.len() == keys.len()
    &&& forall|a: int| 0 <= a < perm.len() ==> 0 <= #[trigger] perm[a] < keys.len()
    &&& forall|a: int, b: int|
        0 <= a < b < perm.len() ==> comes_first(
            keys,
            (#[trigger] perm[a]) as int,
            (#[trigger] perm[b]) as int,
        )
}

proof fn lemma_comes_first_transitive(keys: Seq<Seq<Seq<char>>>, i: int, j: int, k: int)
    requires
        comes_first(keys, i, j),
        comes_first(keys, j, k),
    ensures
        comes_first(keys, i, k),
{
    if list_less(keys[i], keys[j]) && list_less(keys[j], keys[k]) {
        lemma_list_less_transitive(keys[i], keys[j], keys[k]);
    }
}

/// The indices of `keys` in the order of a stable sort.
pub fn stable_order(keys: &Vec<Vec<&str>>) -> (perm: Vec<usize>)
    ensures
        is_stable_order(key_views(keys@), perm@),
{
    let ghost ks = key_views(keys@);
    let mut perm: Vec<usize> = Vec::new();
    let n: usize = keys.len();
    let mut m: usize = 0;
    while m < n
        invariant
            n == keys.len(),
            m <= n,
            ks == key_views(keys@),
            perm.len() == m,
            forall|a: int| 0 <= a < m ==> 0 <= #[trigger] perm[a] < m,
            forall|a: int, b: int|
                0 <= a < b < m ==> comes_first(
                    ks,
                    (#[trigger] perm[a]) as int,
                    (#[trigger] perm[b]) as int,
                ),
        decreases n - m,
    {
        // The place behind the last item whose key is not above that of `m`.
        let mut at: usize = m;
        while at > 0 && list_precedes(&keys[m], &keys[perm[at - 1]])
            invariant
                n == keys.len(),
                m < n,
                at <= m,
                ks == key_views(keys@),
                perm.len() == m,
                forall|a: int| 0 <= a < m ==> 0 <= #[trigger] perm[a] < m,
                forall|a: int| at <= a < m ==> list_less(ks[m as int], ks[#[trigger] perm[a] as int]),
            decreases at,
        {
            assert(ks[perm[at - 1] as int] == text::views(keys[perm[at - 1] as int]@));
            assert(ks[m as int] == text::views(keys[m as int]@));
            at = at - 1;
        }
        let ghost old_perm = perm@;
        proof {
            if at > 0 {
                let j = old_perm[at - 1] as int;
                assert(ks[j] == text::views(keys[j]@));
                assert(ks[m as int] == text::views(keys[m as int]@));
                lemma_list_less_total(ks[m as int], ks[j]);
                assert(comes_first(ks, j, m as int));
                assert forall|a: int| 0 <= a < at implies comes_first(
                    ks,
                    (#[trigger] old_perm[a]) as int,
                    m as int,
                ) by {
                    if a < at - 1 {
                        lemma_comes_first_transitive(ks, old_perm[a] as int, j, m as int);
                    }
                }
            }
        }
        perm.insert(at, m);
        proof {
            assert forall|a: int, b: int| 0 <= a < b < m + 1 implies comes_first(
                ks,
                (#[trigger] perm[a]) as int,
                (#[trigger] perm[b]) as int,
            ) by {
                let x = if a < at {
                    old_perm[a]
                } else if a == at {
                    m
                } else {
                    old_perm[a - 1]
                };
                let y = if b < at {
                    old_perm[b]
                } else if b == at {
                    m
                } else {
                    old_perm[b - 1]
                };
                assert(perm[a] == x && perm[b] == y);
            }
            assert forall|a: int| 0 <= a < m + 1 implies 0 <= #[trigger] perm[a] < m + 1 by {
                let x = if a < at {
                    old_perm[a]
                } else if a == at {
                    m
                } else {
                    old_perm[a - 1]
                };
                assert(perm[a] == x);
            }
        }
        m = m + 1;
    }
    perm
}

/// One text comes before another where they agree up to some place at which the
/// first ends or has the smaller character.
pub proof fn lemma_less_is(a: Seq<char>, b: Seq<char>)
    ensures
        less(a, b) <==> exists|k: int|
            0 <= k <= a.len() && k < b.len() && #[trigger] a.take(k) == b.take(k) && (k == a.len()
                || a[k] < b[k]),
    decreases a.len(),
{
    if less(a, b) {
        let k = lemma_less_place(a, b);
    }
    if exists|k: int|
        0 <= k <= a.len() && k < b.len() && #[trigger] a.take(k) == b.take(k) && (k == a.len()
            || a[k] < b[k]) {
        let k = choose|k: int|
            0 <= k <= a.len() && k < b.len() && #[trigger] a.take(k) == b.take(k) && (k == a.len()
                || a[k] < b[k]);
        lemma_less_from(a, b, k);
    }
}

proof fn lemma_less_place(a: Seq<char>, b: Seq<char>) -> (k: int)
    requires
        less(a, b),
    ensures
        0 <= k <= a.len(),
        k < b.len(),
        a.take(k) == b.take(k),
        k == a.len() || a[k] < b[k],
    decreases a.len(),
{
    if a.len() == 0 || a[0] != b[0] {
        assert(a.take(0) =~= b.take(0));
        0
    } else {
        let x = a.skip(1);
        let y = b.skip(1);
        let k = lemma_less_place(x, y);
        assert forall|j: int| 0 <= j < k + 1 implies a[j] == b[j] by {
            if j > 0 {
                assert(x.take(k)[j - 1] == a[j]);
                assert(y.take(k)[j - 1] == b[j]);
            }
        }
        assert(a.take(k + 1) =~= b.take(k + 1));
        k + 1
    }
}

proof fn lemma_less_from(a: Seq<char>, b: Seq<char>, k: int)
    requires
        0 <= k <= a.len(),
        k < b.len(),
        a.take(k) == b.take(k),
        k == a.len() || a[k] < b[k],
    ensures
        less(a, b),
    decreases k,
{
    if k > 0 {
        assert(a.take(k)[0] == a[0] && b.take(k)[0] == b[0]);
        let x = a.skip(1);
        let y = b.skip(1);
        assert forall|j: int| 0 <= j < k - 1 implies x[j] == y[j] by {
            assert(a.take(k)[j + 1] == x[j]);
            assert(b.take(k)[j + 1] == y[j]);
        }
        assert(x.take(k - 1) =~= y.take(k - 1));
        lemma_less_from(x, y, k - 1);
    }
}

/// A stable order lists every index once. Where two lists of texts have the same
/// first text it goes by the second, and where they are equal by the index.
pub proof fn lemma_stable_order_of_pairs(
    keys: Seq<Seq<Seq<char>>>,
    perm: Seq<usize>,
    a: int,
    b: int,
)
    requires
        is_stable_order(keys, perm),
        0 <= a < b < perm.len(),
        keys[perm[a] as int].len() == 2,
        keys[perm[b] as int].len() == 2,
    ensures
        perm.no_duplicates(),
        ({
            let x = keys[perm[a] as int];
            let y = keys[perm[b] as int];
            ||| less(x[0], y[0])
            ||| x[0] == y[0] && less(x[1], y[1])
            ||| x[0] == y[0] && x[1] == y[1] && perm[a] < perm[b]
        }),
{
    let x = keys[perm[a] as int];
    let y = keys[perm[b] as int];
    assert forall|i: int, j: int| 0 <= i < perm.len() && 0 <= j < perm.len() && i
        != j implies perm[i] != perm[j] by {
        if i < j {
            assert(comes_first(keys, perm[i] as int, perm[j] as int));
            lemma_list_less_irreflexive(keys[perm[i] as int]);
        } else {
            assert(comes_first(keys, perm[j] as int, perm[i] as int));
            lemma_list_less_irreflexive(keys[perm[i] as int]);
        }
    }
    assert(comes_first(keys, perm[a] as int, perm[b] as int));
    reveal_with_fuel(list_less, 4);
    if x == y {
        lemma_list_less_irreflexive(x);
    }
    if list_less(x, y) && x[0] == y[0] {
        assert(list_less(x.skip(1), y.skip(1)));
        assert(x.skip(1)[0] == x[1] && y.skip(1)[0] == y[1]);
        if x[1] == y[1] {
            assert(x.skip(1).skip(1).len() == 0 && y.skip(1).skip(1).len() == 0);
        }
    }
}

} // verus!
