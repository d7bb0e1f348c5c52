//! Text as sequences of characters: the cutting, trimming and searching that
//! the parsers of this crate are built from.

use vstd::prelude::*;

verus! {

/// What a list of string slices holds, each slice as its characters.
pub open spec fn views(v: Seq<&str>) -> Seq<Seq<char>> {
    v.map_values(|t: &str| t@)
}

/// What a list of owned strings holds.
pub open spec fn owned_views(v: Seq<String>) -> Seq<Seq<char>> {
    v.map_values(|t: String| t@)
}

/// What an optional string holds.
pub open spec fn opt_view(o: Option<String>) -> Option<Seq<char>> {
    match o {
        Some(s) => Some(s@),
        None => None,
    }
}

/// What an optional string slice holds.
pub open spec fn opt_str_view(o: Option<&str>) -> Option<Seq<char>> {
    match o {
        Some(s) => Some(s@),
        None => None,
    }
}

/// The Unicode `White_Space` property.
pub open spec fn is_space(c: char) -> bool {
    ||| '\u{9}' <= c <= '\u{d}'
    ||| c == '\u{20}'
    ||| c == '\u{85}'
    ||| c == '\u{a0}'
    ||| c == '\u{1680}'
    ||| '\u{2000}' <= c <= '\u{200a}'
    ||| c == '\u{2028}'
    ||| c == '\u{2029}'
    ||| c == '\u{202f}'
    ||| c == '\u{205f}'
    ||| c == '\u{3000}'
}

/// `s` without its leading white space.
pub open spec fn trimmed_start(s: Seq<char>) -> Seq<char>
    decreases s.len(),
{
    if s.len() > 0 && is_space(s[0]) {
        trimmed_start(s.skip(1))
    } else {
        s
    }
}

/// `s` without its trailing white space.
pub open spec fn trimmed_end(s: Seq<char>) -> Seq<char>
    decreases s.len(),
{
    if s.len() > 0 && is_space(s.last()) {
        trimmed_end(s.drop_last())
    } else {
        s
    }
}

/// `s` without white space at either end.
pub open spec fn trimmed(s: Seq<char>) -> Seq<char> {
    trimmed_end(trimmed_start(s))
}

/// Where `c` first stands in `s`; the length of `s` where it does not occur.
pub open spec fn first_index(s: Seq<char>, c: char) -> int
    decreases s.len(),
{
    if s.len() == 0 || s[0] == c {
        0
    } else {
        1 + first_index(s.skip(1), c)
    }
}

/// The two sides of the first `sep` in `s`.
pub open spec fn cut(s: Seq<char>, sep: char) -> Option<(Seq<char>, Seq<char>)> {
    let i = first_index(s, sep);
    if i < s.len() {
        Some((s.take(i), s.skip(i + 1)))
    } else {
        None
    }
}

/// `s` up to the first `sep`, or all of it.
pub open spec fn head(s: Seq<char>, sep: char) -> Seq<char> {
    s.take(first_index(s, sep))
}

/// The pieces of `s` between the occurrences of `sep`.
pub open spec fn pieces(s: Seq<char>, sep: char) -> Seq<Seq<char>>
    decreases s.len(),
{
    proof {
        lemma_first_index_bounds(s, sep);
    }
    let i = first_index(s, sep);
    if i < s.len() {
        seq![s.take(i)] + pieces(s.skip(i + 1), sep)
    } else {
        seq![s]
    }
}

/// A line without the carriage return that its line feed may follow.
pub open spec fn without_return(s: Seq<char>) -> Seq<char> {
    if s.len() > 0 && s.last() == '\r' {
        s.drop_last()
    } else {
        s
    }
}

/// The lines of `s`, each without its ending (`\n` or `\r\n`); a final ending
/// opens no further line.
pub open spec fn line_seq(s: Seq<char>) -> Seq<Seq<char>>
    decreases s.len(),
{
    proof {
        lemma_first_index_bounds(s, '\n');
    }
    let i = first_index(s, '\n');
    if s.len() == 0 {
        Seq::empty()
    } else if i < s.len() {
        seq![without_return(s.take(i))] + line_seq(s.skip(i + 1))
    } else {
        seq![s]
    }
}

/// Where white space first stands in `s`; the length of `s` where there is none.
pub open spec fn word_len(s: Seq<char>) -> int
    decreases s.len(),
{
    if s.len() == 0 || is_space(s[0]) {
        0
    } else {
        1 + word_len(s.skip(1))
    }
}

/// The maximal runs of characters of `s` that are not white space.
pub open spec fn words(s: Seq<char>) -> Seq<Seq<char>>
    decreases s.len(),
{
    proof {
        lemma_word_len_bounds(s);
        lemma_word_len_bounds(s.skip(1));
    }
    if s.len() == 0 {
        Seq::empty()
    } else if is_space(s[0]) {
        words(s.skip(1))
    } else {
        seq![s.take(word_len(s))] + words(s.skip(word_len(s)))
    }
}

/// `s` behind the prefix `p`, where it has that prefix.
pub open spec fn without_prefix(s: Seq<char>, p: Seq<char>) -> Option<Seq<char>> {
    if p.len() <= s.len() && s.take(p.len() as int) == p {
        Some(s.skip(p.len() as int))
    } else {
        None
    }
}

/// `s` before the suffix `p`, where it has that suffix.
pub open spec fn without_suffix(s: Seq<char>, p: Seq<char>) -> Option<Seq<char>> {
    if p.len() <= s.len() && s.skip(s.len() - p.len()) == p {
        Some(s.take(s.len() - p.len()))
    } else {
        None
    }
}

/// Where `p` first occurs in `s`.
pub open spec fn find(s: Seq<char>, p: Seq<char>) -> Option<int>
    decreases s.len(),
{
    if without_prefix(s, p) is Some {
        Some(0)
    } else if s.len() == 0 {
        None
    } else {
        match find(s.skip(1), p) {
            Some(i) => Some(i + 1),
            None => None,
        }
    }
}

/// `s` without leading and trailing characters `c`.
pub open spec fn stripped_start(s: Seq<char>, c: char) -> Seq<char>
    decreases s.len(),
{
    if s.len() > 0 && s[0] == c {
        stripped_start(s.skip(1), c)
    } else {
        s
    }
}

/// `s` without trailing characters `c`.
pub open spec fn stripped_end(s: Seq<char>, c: char) -> Seq<char>
    decreases s.len(),
{
    if s.len() > 0 && s.last() == c {
        stripped_end(s.drop_last(), c)
    } else {
        s
    }
}

pub proof fn lemma_first_index_bounds(s: Seq<char>, c: char)
    ensures
        0 <= first_index(s, c) <= s.len(),
        first_index(s, c) < s.len() ==> s[first_index(s, c)] == c,
        forall|j: int| 0 <= j < first_index(s, c) ==> s[j] != c,
    decreases s.len(),
{
    if s.len() > 0 && s[0] != c {
        lemma_first_index_bounds(s.skip(1), c);
        assert forall|j: int| 0 <= j < first_index(s, c) implies s[j] != c by {
            if j > 0 {
                assert(s.skip(1)[j - 1] == s[j]);
            }
        }
    }
}

pub proof fn lemma_first_index_is(s: Seq<char>, c: char, i: int)
    requires
        0 <= i <= s.len(),
        forall|j: int| 0 <= j < i ==> s[j] != c,
        i < s.len() ==> s[i] == c,
    ensures
        first_index(s, c) == i,
{
    lemma_first_index_bounds(s, c);
}

pub proof fn lemma_word_len_bounds(s: Seq<char>)
    ensures
        0 <= word_len(s) <= s.len(),
        word_len(s) < s.len() ==> is_space(s[word_len(s)]),
        forall|j: int| 0 <= j < word_len(s) ==> !is_space(s[j]),
    decreases s.len(),
{
    if s.len() > 0 && !is_space(s[0]) {
        lemma_word_len_bounds(s.skip(1));
        assert forall|j: int| 0 <= j < word_len(s) implies !is_space(s[j]) by {
            if j > 0 {
                assert(s.skip(1)[j - 1] == s[j]);
            }
        }
    }
}

/// What is trimmed is white space at the two ends, and all of it.
pub proof fn lemma_trimmed_is(s: Seq<char>)
    ensures
        exists|a: int, b: int|
            0 <= a <= b <= s.len() && trimmed(s) == #[trigger] s.subrange(a, b) && (forall|j: int|
                0 <= j < a || b <= j < s.len() ==> is_space(#[trigger] s[j])) && (a < b
                ==> !is_space(s[a]) && !is_space(s[b - 1])),
{
    let a = lemma_trimmed_start_is(s);
    let t = trimmed_start(s);
    let b = lemma_trimmed_end_is(t);
    assert(trimmed(s) =~= s.subrange(a, a + b));
    assert forall|j: int| 0 <= j < a || a + b <= j < s.len() implies is_space(#[trigger] s[j]) by {
        if j >= a + b {
            assert(t[j - a] == s[j]);
        }
    }
    if b > 0 {
        assert(t[0] == s[a]);
        assert(t[b - 1] == s[a + b - 1]);
    }
}

proof fn lemma_trimmed_start_is(s: Seq<char>) -> (a: int)
    ensures
        0 <= a <= s.len(),
        trimmed_start(s) == s.skip(a),
        forall|j: int| 0 <= j < a ==> is_space(#[trigger] s[j]),
        a < s.len() ==> !is_space(s[a]),
    decreases s.len(),
{
    if s.len() > 0 && is_space(s[0]) {
        let rest = s.skip(1);
        let a = lemma_trimmed_start_is(rest);
        assert(s.skip(a + 1) =~= rest.skip(a));
        assert forall|j: int| 0 <= j < a + 1 implies is_space(#[trigger] s[j]) by {
            if j > 0 {
                assert(rest[j - 1] == s[j]);
            }
        }
        a + 1
    } else {
        assert(s.skip(0) =~= s);
        0
    }
}

proof fn lemma_trimmed_end_is(s: Seq<char>) -> (b: int)
    ensures
        0 <= b <= s.len(),
        trimmed_end(s) == s.take(b),
        forall|j: int| b <= j < s.len() ==> is_space(#[trigger] s[j]),
        b > 0 ==> !is_space(s[b - 1]),
    decreases s.len(),
{
    if s.len() > 0 && is_space(s.last()) {
        let rest = s.drop_last();
        let b = lemma_trimmed_end_is(rest);
        assert(s.take(b) =~= rest.take(b));
        assert forall|j: int| b <= j < s.len() implies is_space(#[trigger] s[j]) by {
            if j < rest.len() {
                assert(rest[j] == s[j]);
            }
        }
        b
    } else {
        assert(s.take(s.len() as int) =~= s);
        s.len() as int
    }
}

/// A text is cut at its first separator, which is then gone, and nowhere where it
/// has none.
pub proof fn lemma_cut_is(s: Seq<char>, sep: char)
    ensures
        match cut(s, sep) {
            Some((a, b)) => s == a + seq![sep] + b && !a.contains(sep),
            None => !s.contains(sep),
        },
{
    lemma_first_index_bounds(s, sep);
    let i = first_index(s, sep);
    if i < s.len() {
        assert(s =~= s.take(i) + seq![sep] + s.skip(i + 1));
    }
}

/// The head of a text reaches to its first separator, or to its end.
pub proof fn lemma_head_is(s: Seq<char>, sep: char)
    ensures
        !head(s, sep).contains(sep),
        head(s, sep) == s || exists|tail: Seq<char>| s == #[trigger] (head(s, sep) + seq![sep] + tail),
{
    lemma_first_index_bounds(s, sep);
    let i = first_index(s, sep);
    if i < s.len() {
        assert(s =~= s.take(i) + seq![sep] + s.skip(i + 1));
    } else {
        assert(s.take(i) =~= s);
    }
}

/// A text with a separator in it has the pieces on one side of it and then those on
/// the other. A text without one is a piece by itself.
pub proof fn lemma_pieces_split(a: Seq<char>, sep: char, b: Seq<char>)
    ensures
        pieces(a + seq![sep] + b, sep) == pieces(a, sep) + pieces(b, sep),
        !a.contains(sep) ==> pieces(a, sep) == seq![a],
    decreases a.len(),
{
    let s = a + seq![sep] + b;
    lemma_first_index_bounds(a, sep);
    let i = first_index(a, sep);
    if i < a.len() {
        assert(a.contains(sep));
        assert(s[i] == sep);
        assert forall|j: int| 0 <= j < i implies s[j] != sep by {
            assert(s[j] == a[j]);
        }
        lemma_first_index_is(s, sep, i);
        let rest = a.skip(i + 1);
        lemma_pieces_split(rest, sep, b);
        assert(s.skip(i + 1) =~= rest + seq![sep] + b);
        assert(s.take(i) =~= a.take(i));
        assert(pieces(s, sep) =~= pieces(a, sep) + pieces(b, sep));
    } else {
        assert forall|j: int| 0 <= j < i implies s[j] != sep by {
            assert(s[j] == a[j]);
        }
        assert(s[i] == sep);
        lemma_first_index_is(s, sep, i);
        assert(s.take(i) =~= a);
        assert(s.skip(i + 1) =~= b);
    }
}

/// A line ends at the first line feed, and loses a carriage return right before
/// that; what follows are lines again. Without a line feed a text is one line,
/// unless it is empty.
pub proof fn lemma_lines_split(a: Seq<char>, b: Seq<char>)
    requires
        !a.contains('\n'),
    ensures
        line_seq(a + seq!['\n'] + b) == seq![
            (if a.len() > 0 && a.last() == '\r' {
                a.drop_last()
            } else {
                a
            }),
        ] + line_seq(b),
        line_seq(a) == (if a.len() == 0 {
            Seq::<Seq<char>>::empty()
        } else {
            seq![a]
        }),
{
    let s = a + seq!['\n'] + b;
    assert forall|j: int| 0 <= j < a.len() implies s[j] != '\n' by {
        assert(s[j] == a[j]);
        assert(a.contains(a[j]));
    }
    lemma_first_index_is(s, '\n', a.len() as int);
    assert(s.take(a.len() as int) =~= a);
    assert(s.skip(a.len() as int + 1) =~= b);
    assert forall|j: int| 0 <= j < a.len() implies a[j] != '\n' by {
        assert(a.contains(a[j]));
    }
    lemma_first_index_is(a, '\n', a.len() as int);
}

/// A text with white space in it has the words on one side of it and then those on
/// the other. A text without any is a word by itself, unless it is empty.
pub proof fn lemma_words_split(a: Seq<char>, c: char, b: Seq<char>)
    requires
        is_space(c),
    ensures
        words(a + seq![c] + b) == words(a) + words(b),
        (forall|j: int| 0 <= j < a.len() ==> !is_space(#[trigger] a[j])) ==> words(a) == (
        if a.len() == 0 {
            Seq::<Seq<char>>::empty()
        } else {
            seq![a]
        }),
    decreases a.len(),
{
    let s = a + seq![c] + b;
    if a.len() == 0 {
        assert(s.skip(1) =~= b);
        assert(words(a) + words(b) =~= words(b));
    } else if is_space(a[0]) {
        lemma_words_split(a.skip(1), c, b);
        assert(s.skip(1) =~= a.skip(1) + seq![c] + b);
    } else {
        let w = word_len(a);
        lemma_word_len_bounds(a);
        lemma_word_len_bounds(s);
        assert(word_len(s) == w) by {
            let v = word_len(s);
            if v < w {
                assert(s[v] == a[v]);
            }
            if w < v {
                if w < a.len() {
                    assert(s[w] == a[w]);
                } else {
                    assert(s[w] == c);
                }
            }
        }
        assert(s.take(w) =~= a.take(w));
        if w == a.len() {
            assert(a.take(w) =~= a);
            assert(a.skip(w) =~= Seq::<char>::empty());
            assert(s.skip(w) =~= seq![c] + b);
            assert((seq![c] + b).skip(1) =~= b);
            assert(words(Seq::<char>::empty()) =~= Seq::<Seq<char>>::empty());
            assert(words(a) =~= seq![a]);
            assert(words(seq![c] + b) == words(b));
            assert(words(s) =~= seq![a] + words(b));
        } else {
            let rest = a.skip(w);
            lemma_words_split(rest, c, b);
            assert(s.skip(w) =~= rest + seq![c] + b);
            assert(words(s) =~= words(a) + words(b));
        }
    }
}

/// The characters of `s`, in order.
pub fn chars_of(s: &str) -> (v: Vec<char>)
    ensures
        v@ == s@,
{
    let mut v: Vec<char> = Vec::new();
    for c in it: s.chars()
        invariant
            it.seq() == s@,
            v@ == s@.take(it.index() as int),
    {
        v.push(c);
    }
    v
}

pub fn is_space_char(c: char) -> (b: bool)
    ensures
        b == is_space(c),
{
    ('\u{9}' <= c && c <= '\u{d}') || c == '\u{20}' || c == '\u{85}' || c == '\u{a0}' || c
        == '\u{1680}' || ('\u{2000}' <= c && c <= '\u{200a}') || c == '\u{2028}' || c == '\u{2029}'
        || c == '\u{202f}' || c == '\u{205f}' || c == '\u{3000}'
}

/// `s` without white space at either end.
pub fn trim(s: &str) -> (r: &str)
    ensures
        r@ == trimmed(s@),
{
    let v = chars_of(s);
    let n: usize = v.len();
    let mut a: usize = 0;
    assert(s@.skip(0) =~= s@);
    while a < n && is_space_char(v[a])
        invariant
            v@ == s@,
            n == v.len(),
            a <= n,
            trimmed_start(s@) == trimmed_start(s@.skip(a as int)),
        decreases n - a,
    {
        assert(s@.skip(a as int).skip(1) =~= s@.skip(a + 1));
        a = a + 1;
    }
    let ghost t = s@.skip(a as int);
    assert(trimmed_start(s@) == t);
    let mut b: usize = n;
    while b > a && is_space_char(v[b - 1])
        invariant
            v@ == s@,
            n == v.len(),
            a <= b <= n,
            t == s@.skip(a as int),
            trimmed_end(t) == trimmed_end(s@.subrange(a as int, b as int)),
        decreases b,
    {
        assert(s@.subrange(a as int, b as int).drop_last() =~= s@.subrange(a as int, b - 1));
        b = b - 1;
    }
    s.substring_char(a, b)
}

/// The index of the first `c` in `v` at or behind `from`.
pub fn index_from(v: &Vec<char>, c: char, from: usize) -> (i: usize)
    requires
        from <= v.len(),
    ensures
        from <= i <= v.len(),
        i - from == first_index(v@.skip(from as int), c),
        i < v.len() ==> v[i as int] == c,
{
    let mut i: usize = from;
    while i < v.len() && v[i] != c
        invariant
            from <= i <= v.len(),
            forall|j: int| from <= j < i ==> v[j] != c,
        decreases v.len() - i,
    {
        i = i + 1;
    }
    proof {
        let t = v@.skip(from as int);
        assert forall|j: int| 0 <= j < i - from implies t[j] != c by {
            assert(t[j] == v[from + j]);
        }
        lemma_first_index_is(t, c, i - from);
    }
    i
}

/// The two sides of the first `sep` in `s`.
pub fn split_once<'a>(s: &'a str, sep: char) -> (r: Option<(&'a str, &'a str)>)
    ensures
        r is Some <==> cut(s@, sep) is Some,
        r matches Some((a, b)) ==> cut(s@, sep) == Some((a@, b@)),
{
    let v = chars_of(s);
    let n: usize = v.len();
    let i: usize = index_from(&v, sep, 0);
    assert(s@.skip(0) =~= s@);
    if i < n {
        let a = s.substring_char(0, i);
        let b = s.substring_char(i + 1, n);
        assert(a@ =~= s@.take(i as int));
        assert(b@ =~= s@.skip(i + 1));
        Some((a, b))
    } else {
        None
    }
}

/// `s` up to the first `sep`, or all of it.
pub fn before<'a>(s: &'a str, sep: char) -> (r: &'a str)
    ensures
        r@ == head(s@, sep),
{
    let v = chars_of(s);
    let i: usize = index_from(&v, sep, 0);
    assert(s@.skip(0) =~= s@);
    let r = s.substring_char(0, i);
    assert(r@ =~= s@.take(i as int));
    r
}

proof fn lemma_views_push(v: Seq<&str>, t: &str)
    ensures
        views(v.push(t)) == views(v).push(t@),
{
    assert(views(v.push(t)) =~= views(v).push(t@));
}

/// The pieces of `s` between the occurrences of `sep`.
pub fn split<'a>(s: &'a str, sep: char) -> (out: Vec<&'a str>)
    ensures
        views(out@) == pieces(s@, sep),
{
    let v = chars_of(s);
    let n: usize = v.len();
    let mut out: Vec<&'a str> = Vec::new();
    let mut from: usize = 0;
    let mut i: usize = index_from(&v, sep, 0);
    proof {
        assert(s@.skip(0) =~= s@);
        assert(views(out@) + pieces(s@.skip(0), sep) =~= pieces(s@, sep));
    }
    while i < n
        invariant
            v@ == s@,
            n == v.len(),
            from <= i <= n,
            i - from == first_index(s@.skip(from as int), sep),
            views(out@) + pieces(s@.skip(from as int), sep) == pieces(s@, sep),
        decreases n - i,
    {
        let piece = s.substring_char(from, i);
        proof {
            let t = s@.skip(from as int);
            assert(t.take(i - from) =~= piece@);
            assert(t.skip(i - from + 1) =~= s@.skip(i + 1));
            assert(pieces(t, sep) == seq![piece@] + pieces(s@.skip(i + 1), sep));
            lemma_views_push(out@, piece);
            assert(views(out@).push(piece@) + pieces(s@.skip(i + 1), sep) =~= views(out@) + (
            seq![piece@] + pieces(s@.skip(i + 1), sep)));
        }
        out.push(piece);
        from = i + 1;
        i = index_from(&v, sep, from);
    }
    let piece = s.substring_char(from, n);
    proof {
        assert(piece@ =~= s@.skip(from as int));
        lemma_views_push(out@, piece);
        assert(views(out@).push(piece@) =~= views(out@) + seq![piece@]);
    }
    out.push(piece);
    out
}

/// The lines of `s`, each without its ending.
pub fn lines<'a>(s: &'a str) -> (out: Vec<&'a str>)
    ensures
        views(out@) == line_seq(s@),
{
    let v = chars_of(s);
    let n: usize = v.len();
    let mut out: Vec<&'a str> = Vec::new();
    let mut from: usize = 0;
    proof {
        assert(s@.skip(0) =~= s@);
        assert(views(out@) + line_seq(s@.skip(0)) =~= line_seq(s@));
    }
    while from < n
        invariant
            v@ == s@,
            n == v.len(),
            from <= n,
            views(out@) + line_seq(s@.skip(from as int)) == line_seq(s@),
        decreases n - from,
    {
        let i: usize = index_from(&v, '\n', from);
        let ghost t = s@.skip(from as int);
        if i < n {
            let last: usize = if i > from && v[i - 1] == '\r' {
                i - 1
            } else {
                i
            };
            let line = s.substring_char(from, last);
            proof {
                assert(without_return(t.take(i - from)) =~= line@);
                assert(t.skip(i - from + 1) =~= s@.skip(i + 1));
                lemma_views_push(out@, line);
                assert(views(out@).push(line@) + line_seq(s@.skip(i + 1)) =~= views(out@) + (
                seq![line@] + line_seq(s@.skip(i + 1))));
            }
            out.push(line);
            from = i + 1;
        } else {
            let line = s.substring_char(from, n);
            proof {
                assert(line@ =~= t);
                lemma_views_push(out@, line);
                assert(s@.skip(n as int) =~= Seq::<char>::empty());
                assert(views(out@).push(line@) + line_seq(s@.skip(n as int)) =~= views(out@)
                    + seq![line@]);
            }
            out.push(line);
            from = n;
        }
    }
    assert(s@.skip(n as int) =~= Seq::<char>::empty());
    assert(views(out@) + line_seq(s@.skip(n as int)) =~= views(out@));
    out
}

/// The words of `s`: the runs of characters between white space.
pub fn split_whitespace<'a>(s: &'a str) -> (out: Vec<&'a str>)
    ensures
        views(out@) == words(s@),
{
    let v = chars_of(s);
    let n: usize = v.len();
    let mut out: Vec<&'a str> = Vec::new();
    let mut from: usize = 0;
    proof {
        assert(s@.skip(0) =~= s@);
        assert(views(out@) + words(s@.skip(0)) =~= words(s@));
    }
    while from < n
        invariant
            v@ == s@,
            n == v.len(),
            from <= n,
            views(out@) + words(s@.skip(from as int)) == words(s@),
        decreases n - from,
    {
        let ghost t = s@.skip(from as int);
        if is_space_char(v[from]) {
            assert(t.skip(1) =~= s@.skip(from + 1));
            from = from + 1;
        } else {
            let mut i: usize = from;
            while i < n && !is_space_char(v[i])
                invariant
                    v@ == s@,
                    n == v.len(),
                    from <= i <= n,
                    forall|j: int| from <= j < i ==> !is_space(s@[j]),
                decreases n - i,
            {
                i = i + 1;
            }
            let word = s.substring_char(from, i);
            proof {
                lemma_word_len_bounds(t);
                let w = word_len(t);
                assert(w == i - from) by {
                    if w < i - from {
                        assert(is_space(t[w]));
                        assert(t[w] == s@[from + w]);
                    }
                    if w > i - from {
                        assert(t[i - from] == s@[i as int]);
                    }
                }
                assert(t.take(w) =~= word@);
                assert(t.skip(w) =~= s@.skip(i as int));
                lemma_views_push(out@, word);
                assert(views(out@).push(word@) + words(s@.skip(i as int)) =~= views(out@) + (
                seq![word@] + words(s@.skip(i as int))));
            }
            out.push(word);
            from = i;
        }
    }
    assert(s@.skip(n as int) =~= Seq::<char>::empty());
    assert(views(out@) + words(s@.skip(n as int)) =~= views(out@));
    out
}

/// Whether `p` stands in `v` at `at`.
fn occurs_at(v: &Vec<char>, p: &Vec<char>, at: usize) -> (b: bool)
    requires
        at <= v.len(),
    ensures
        b == (without_prefix(v@.skip(at as int), p@) is Some),
{
    let ghost t = v@.skip(at as int);
    if p.len() > v.len() - at {
        return false;
    }
    let mut k: usize = 0;
    while k < p.len()
        invariant
            t == v@.skip(at as int),
            at <= v.len(),
            p.len() <= v.len() - at,
            k <= p.len(),
            forall|j: int| 0 <= j < k ==> t[j] == p[j],
        decreases p.len() - k,
    {
        if v[at + k] != p[k] {
            assert(t[k as int] != p[k as int]);
            assert(t.take(p.len() as int)[k as int] != p@[k as int]);
            return false;
        }
        k = k + 1;
    }
    assert(t.take(p.len() as int) =~= p@);
    true
}

/// `s` behind the prefix `p`, where it has that prefix.
pub fn strip_prefix<'a>(s: &'a str, p: &str) -> (r: Option<&'a str>)
    ensures
        opt_str_view(r) == without_prefix(s@, p@),
{
    let v = chars_of(s);
    let q = chars_of(p);
    assert(s@.skip(0) =~= s@);
    if occurs_at(&v, &q, 0) {
        let r = s.substring_char(q.len(), v.len());
        assert(r@ =~= s@.skip(p@.len() as int));
        Some(r)
    } else {
        None
    }
}

/// Whether `s` begins with `p`.
pub fn starts_with(s: &str, p: &str) -> (b: bool)
    ensures
        b == (without_prefix(s@, p@) is Some),
{
    let v = chars_of(s);
    let q = chars_of(p);
    assert(s@.skip(0) =~= s@);
    occurs_at(&v, &q, 0)
}

/// `s` before the suffix `p`, where it has that suffix.
pub fn strip_suffix<'a>(s: &'a str, p: &str) -> (r: Option<&'a str>)
    ensures
        opt_str_view(r) == without_suffix(s@, p@),
{
    let v = chars_of(s);
    let q = chars_of(p);
    if q.len() > v.len() {
        return None;
    }
    let at: usize = v.len() - q.len();
    let hit = occurs_at(&v, &q, at);
    assert(s@.skip(at as int).take(q.len() as int) =~= s@.skip(at as int));
    if hit {
        let r = s.substring_char(0, at);
        assert(r@ =~= s@.take(at as int));
        Some(r)
    } else {
        None
    }
}

proof fn lemma_find_skip(s: Seq<char>, p: Seq<char>, k: int)
    requires
        0 <= k <= s.len(),
        forall|j: int| 0 <= j < k ==> without_prefix(#[trigger] s.skip(j), p) is None,
    ensures
        find(s, p) == match find(s.skip(k), p) {
            Some(i) => Some(i + k),
            None => None,
        },
    decreases k,
{
    assert(s.skip(0) =~= s);
    if k > 0 {
        let t = s.skip(1);
        assert forall|j: int| 0 <= j < k - 1 implies without_prefix(#[trigger] t.skip(j), p)
            is None by {
            assert(t.skip(j) =~= s.skip(j + 1));
        }
        lemma_find_skip(t, p, k - 1);
        assert(t.skip(k - 1) =~= s.skip(k));
    }
}

/// The two sides of the first occurrence of `p` in `s`.
pub fn split_once_text<'a>(s: &'a str, p: &str) -> (r: Option<(&'a str, &'a str)>)
    ensures
        match r {
            Some((a, b)) => find(s@, p@) is Some && a@ == s@.take(find(s@, p@)->0) && b@
                == s@.skip(find(s@, p@)->0 + p@.len()),
            None => find(s@, p@) is None,
        },
{
    let v = chars_of(s);
    let q = chars_of(p);
    let n: usize = v.len();
    let mut i: usize = 0;
    loop
        invariant
            v@ == s@,
            q@ == p@,
            n == v.len(),
            i <= n,
            forall|j: int| 0 <= j < i ==> without_prefix(#[trigger] s@.skip(j), p@) is None,
        decreases n - i,
    {
        if occurs_at(&v, &q, i) {
            proof {
                lemma_find_skip(s@, p@, i as int);
            }
            let a = s.substring_char(0, i);
            let b = s.substring_char(i + q.len(), n);
            assert(a@ =~= s@.take(i as int));
            assert(b@ =~= s@.skip(i + p@.len()));
            return Some((a, b));
        }
        if i == n {
            proof {
                lemma_find_skip(s@, p@, n as int);
            }
            return None;
        }
        i = i + 1;
    }
}

/// `s` without leading and trailing characters `c`.
pub fn trim_matches<'a>(s: &'a str, c: char) -> (r: &'a str)
    ensures
        r@ == stripped_end(stripped_start(s@, c), c),
{
    let v = chars_of(s);
    let n: usize = v.len();
    let mut a: usize = 0;
    assert(s@.skip(0) =~= s@);
    while a < n && v[a] == c
        invariant
            v@ == s@,
            n == v.len(),
            a <= n,
            stripped_start(s@, c) == stripped_start(s@.skip(a as int), c),
        decreases n - a,
    {
        assert(s@.skip(a as int).skip(1) =~= s@.skip(a + 1));
        a = a + 1;
    }
    let ghost t = s@.skip(a as int);
    let mut b: usize = n;
    while b > a && v[b - 1] == c
        invariant
            v@ == s@,
            n == v.len(),
            a <= b <= n,
            t == s@.skip(a as int),
            stripped_end(t, c) == stripped_end(s@.subrange(a as int, b as int), c),
        decreases b,
    {
        assert(s@.subrange(a as int, b as int).drop_last() =~= s@.subrange(a as int, b - 1));
        b = b - 1;
    }
    s.substring_char(a, b)
}

/// Whether two texts hold the same characters.
pub fn same(a: &str, b: &str) -> (r: bool)
    ensures
        r == (a@ == b@),
{
    let v = chars_of(a);
    let w = chars_of(b);
    if v.len() != w.len() {
        return false;
    }
    let mut i: usize = 0;
    while i < v.len()
        invariant
            v@ == a@,
            w@ == b@,
            v.len() == w.len(),
            i <= v.len(),
            forall|j: int| 0 <= j < i ==> v[j] == w[j],
        decreases v.len() - i,
    {
        if v[i] != w[i] {
            assert(a@[i as int] != b@[i as int]);
            return false;
        }
        i = i + 1;
    }
    assert(a@ =~= b@);
    true
}

/// The texts `v` one behind the other, with `sep` between them.
pub open spec fn joined(v: Seq<Seq<char>>, sep: Seq<char>) -> Seq<char>
    decreases v.len(),
{
    if v.len() == 0 {
        Seq::empty()
    } else if v.len() == 1 {
        v[0]
    } else {
        joined(v.drop_last(), sep) + sep + v.last()
    }
}

/// The texts of a list of slices, each as a string of its own.
pub fn own_all(v: &Vec<&str>) -> (r: Vec<String>)
    ensures
        owned_views(r@) == views(v@),
{
    let mut r: Vec<String> = Vec::new();
    let mut i: usize = 0;
    while i < v.len()
        invariant
            i <= v.len(),
            owned_views(r@) == views(v@).take(i as int),
        decreases v.len() - i,
    {
        let ghost before = r@;
        let s = v[i].to_string();
        r.push(s);
        assert(owned_views(r@) =~= owned_views(before).push(s@));
        assert(owned_views(r@) =~= views(v@).take(i + 1));
        i = i + 1;
    }
    assert(owned_views(r@) =~= views(v@));
    r
}

/// The texts `v` one behind the other, with `sep` between them.
pub fn join(v: &Vec<String>, sep: &str) -> (r: String)
    ensures
        r@ == joined(owned_views(v@), sep@),
{
    let mut r = String::new();
    let mut i: usize = 0;
    let ghost w = owned_views(v@);
    assert(r@ =~= joined(w.take(0), sep@));
    while i < v.len()
        invariant
            i <= v.len(),
            w == owned_views(v@),
            r@ == joined(w.take(i as int), sep@),
        decreases v.len() - i,
    {
        proof {
            assert(w.take(i + 1).drop_last() =~= w.take(i as int));
            assert(w.take(i + 1).last() == v[i as int]@);
        }
        if i > 0 {
            r.append(sep);
        }
        r.append(&v[i]);
        if i == 0 {
            assert(r@ =~= v[0]@);
        }
        i = i + 1;
    }
    assert(w.take(i as int) =~= w);
    r
}

/// The texts `v` one behind the other.
pub open spec fn concatenated(v: Seq<Seq<char>>) -> Seq<char>
    decreases v.len(),
{
    if v.len() == 0 {
        Seq::empty()
    } else {
        concatenated(v.drop_last()) + v.last()
    }
}

/// The texts `v` one behind the other.
pub fn concat(v: &Vec<&str>) -> (r: String)
    ensures
        r@ == concatenated(views(v@)),
{
    let mut r = String::new();
    let mut i: usize = 0;
    let ghost w = views(v@);
    assert(r@ =~= concatenated(w.take(0)));
    while i < v.len()
        invariant
            i <= v.len(),
            w == views(v@),
            r@ == concatenated(w.take(i as int)),
        decreases v.len() - i,
    {
        proof {
            assert(w.take(i + 1).drop_last() =~= w.take(i as int));
            assert(w.take(i + 1).last() == v[i as int]@);
        }
        r.append(v[i]);
        i = i + 1;
    }
    assert(w.take(i as int) =~= w);
    r
}

/// How `{:?}` writes the text `s`: in quotes, with escapes.
pub uninterp spec fn debug_quoted(s: Seq<char>) -> Seq<char>;

/// `format!` with `{:?}` of a text. Claims that the result depends on the text
/// alone, under the name [`debug_quoted`]; which characters are escaped, and
/// how, is not stated.
#[verifier::external_body]
pub(crate) fn quote(s: &str) -> (r: String)
    ensures
        r@ == debug_quoted(s@),
{
    format!("{:?}", s)
}

/// Texts are joined by writing the separator between any two of them.
pub proof fn lemma_joined_is(v: Seq<Seq<char>>, s: Seq<char>, sep: Seq<char>)
    ensures
        v.len() > 0 ==> joined(v.push(s), sep) == joined(v, sep) + sep + s,
        joined(seq![s], sep) == s,
        joined(Seq::empty(), sep).len() == 0,
        concatenated(v.push(s)) == concatenated(v) + s,
        concatenated(Seq::empty()).len() == 0,
{
    assert(v.push(s).drop_last() =~= v);
}

/// White space is what Unicode takes for it: six control characters, the space, and
/// those that are like it.
pub proof fn lemma_spaces_are(c: char)
    ensures
        is_space(c) <==> seq![
            9int,
            10,
            11,
            12,
            13,
            32,
            133,
            160,
            5760,
            8192,
            8193,
            8194,
            8195,
            8196,
            8197,
            8198,
            8199,
            8200,
            8201,
            8202,
            8232,
            8233,
            8239,
            8287,
            12288,
        ].contains(c as int),
{
    let all = seq![
        9int,
        10,
        11,
        12,
        13,
        32,
        133,
        160,
        5760,
        8192,
        8193,
        8194,
        8195,
        8196,
        8197,
        8198,
        8199,
        8200,
        8201,
        8202,
        8232,
        8233,
        8239,
        8287,
        12288,
    ];
    let k = c as int;
    let i = if 9 <= k <= 13 {
        k - 9
    } else if 8192 <= k <= 8202 {
        k - 8183
    } else if k == 32 {
        5
    } else if k == 133 {
        6
    } else if k == 160 {
        7
    } else if k == 5760 {
        8
    } else if k == 8232 {
        20
    } else if k == 8233 {
        21
    } else if k == 8239 {
        22
    } else if k == 8287 {
        23
    } else {
        24
    };
    if is_space(c) {
        assert(all[i] == k);
    }
}

} // verus!
