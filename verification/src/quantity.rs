//! Kubernetes resource quantities as byte counts.

use vstd::prelude::*;

use crate::binary64;
use crate::float_text;
use crate::number;
use crate::text;

verus! {

/// The suffixes of a quantity and what they multiply by, in the order in which
/// they are tried.
pub open spec fn units() -> Seq<(Seq<char>, nat)> {
    seq![
        ("Ki"@, 1_024nat),
        ("Mi"@, 1_048_576nat),
        ("Gi"@, 1_073_741_824nat),
        ("Ti"@, 1_099_511_627_776nat),
        ("Pi"@, 1_125_899_906_842_624nat),
        ("Ei"@, 1_152_921_504_606_846_976nat),
        ("K"@, 1_000nat),
        ("M"@, 1_000_000nat),
        ("G"@, 1_000_000_000nat),
        ("T"@, 1_000_000_000_000nat),
        ("P"@, 1_000_000_000_000_000nat),
        ("E"@, 1_000_000_000_000_000_000nat),
    ]
}

/// The first of `units` that `t` ends with: what stands before it, and what it
/// multiplies by.
pub open spec fn unit_of(t: Seq<char>, units: Seq<(Seq<char>, nat)>) -> Option<(Seq<char>, nat)>
    decreases units.len(),
{
    if units.len() == 0 {
        None
    } else {
        match text::without_suffix(t, units[0].0) {
            Some(rest) => Some((rest, units[0].1)),
            None => unit_of(t, units.skip(1)),
        }
    }
}

/// The bytes that the quantity `q` denotes: a number times its unit, computed
/// in floating point, and zero where that is below zero; or a plain count.
pub open spec fn bytes(q: Seq<char>) -> Option<int> {
    let t = text::trimmed(q);
    match unit_of(t, units()) {
        Some((rest, factor)) => match float_text::literal(text::trimmed(rest)) {
            Some(l) => Some(float_text::scaled_literal(l, factor) as int),
            None => None,
        },
        None => number::unsigned_value(t, u64::MAX as int),
    }
}

/// What an exec table of units holds.
spec fn table_view(v: Seq<(&str, u64)>) -> Seq<(Seq<char>, nat)> {
    v.map_values(|u: (&str, u64)| (u.0@, u.1 as nat))
}

fn unit_table() -> (v: Vec<(&'static str, u64)>)
    ensures
        table_view(v@) == units(),
        forall|i: int| 0 <= i < v.len() ==> 1 <= (#[trigger] v[i]).1 <= binary64::two_to(60),
{
    let v: Vec<(&'static str, u64)> = vec![
        ("Ki", 1_024),
        ("Mi", 1_048_576),
        ("Gi", 1_073_741_824),
        ("Ti", 1_099_511_627_776),
        ("Pi", 1_125_899_906_842_624),
        ("Ei", 1_152_921_504_606_846_976),
        ("K", 1_000),
        ("M", 1_000_000),
        ("G", 1_000_000_000),
        ("T", 1_000_000_000_000),
        ("P", 1_000_000_000_000_000),
        ("E", 1_000_000_000_000_000_000),
    ];
    proof {
        binary64::lemma_two_constants();
        assert(table_view(v@) =~= units());
    }
    v
}

/// Reads a memory quantity as bytes: a number with a binary suffix (Ki to Ei)
/// or a decimal one (K to E), or a plain byte count. Nothing where it is none
/// of these.
pub fn parse_quantity_bytes(q: &str) -> (r: Option<u64>)
    ensures
        r is Some <==> bytes(q@) is Some,
        r matches Some(n) ==> bytes(q@) == Some(n as int),
{
    let t = text::trim(q);
    let table = unit_table();
    let mut i: usize = 0;
    assert(units().skip(0) =~= units());
    while i < table.len()
        invariant
            t@ == text::trimmed(q@),
            i <= table.len(),
            table_view(table@) == units(),
            forall|i: int|
                0 <= i < table.len() ==> 1 <= (#[trigger] table[i]).1 <= binary64::two_to(60),
            unit_of(t@, units()) == unit_of(t@, units().skip(i as int)),
        decreases table.len() - i,
    {
        let (suffix, factor) = table[i];
        proof {
            let rest = units().skip(i as int);
            assert(rest[0] == table_view(table@)[i as int]);
            assert(rest[0] == (suffix@, factor as nat));
            assert(rest.skip(1) =~= units().skip(i + 1));
        }
        if let Some(rest) = text::strip_suffix(t, suffix) {
            return float_text::scale_literal(text::trim(rest), factor);
        }
        i = i + 1;
    }
    number::parse_u64(t)
}

proof fn lemma_nothing_to_trim(s: Seq<char>)
    requires
        s.len() > 0,
        !text::is_space(s[0]),
        !text::is_space(s.last()),
    ensures
        text::trimmed(s) == s,
{
}

/// A text that ends with another character than `p` does not end with `p`.
proof fn lemma_other_end(t: Seq<char>, p: Seq<char>, k: int)
    requires
        0 < k <= p.len(),
        k <= t.len(),
        t[t.len() - k] != p[p.len() - k],
    ensures
        text::without_suffix(t, p) is None,
{
    if p.len() <= t.len() {
        assert(t.skip(t.len() - p.len())[p.len() - k] == t[t.len() - k]);
    }
}

proof fn lemma_unit_found(t: Seq<char>, table: Seq<(Seq<char>, nat)>, i: int)
    requires
        0 <= i < table.len(),
        text::without_suffix(t, table[i].0) is Some,
        forall|j: int| 0 <= j < i ==> text::without_suffix(t, (#[trigger] table[j]).0) is None,
    ensures
        unit_of(t, table) == Some((text::without_suffix(t, table[i].0)->0, table[i].1)),
    decreases i,
{
    if i > 0 {
        let rest = table.skip(1);
        assert forall|j: int| 0 <= j < i - 1 implies text::without_suffix(
            t,
            (#[trigger] rest[j]).0,
        ) is None by {
            assert(rest[j] == table[j + 1]);
        }
        assert(rest[i - 1] == table[i]);
        lemma_unit_found(t, rest, i - 1);
    }
}

/// A whole number of units, written in digits in front of the unit, is that many
/// times the unit, to the byte, wherever floating point holds that exactly and a
/// 64-bit number is wide enough.
pub proof fn lemma_whole_units(n: nat, i: int)
    requires
        0 <= i < units().len(),
        n * units()[i].1 <= u64::MAX,
        binary64::is_exact(n * units()[i].1),
    ensures
        bytes(number::digits(n) + units()[i].0) == Some((n * units()[i].1) as int),
{
    let d = number::digits(n);
    let u = units()[i].0;
    let f = units()[i].1;
    let t = d + u;
    number::lemma_digits(n);
    reveal_strlit("Ki");
    reveal_strlit("Mi");
    reveal_strlit("Gi");
    reveal_strlit("Ti");
    reveal_strlit("Pi");
    reveal_strlit("Ei");
    reveal_strlit("K");
    reveal_strlit("M");
    reveal_strlit("G");
    reveal_strlit("T");
    reveal_strlit("P");
    reveal_strlit("E");
    assert(number::is_digit(d[0]));
    assert(number::is_digit(d.last()));
    assert(t[0] == d[0]);
    assert(t.last() == u.last());
    lemma_nothing_to_trim(t);
    lemma_nothing_to_trim(d);
    assert(t.skip(t.len() - u.len()) =~= u);
    assert(t.take(t.len() - u.len()) =~= d);
    assert forall|j: int| 0 <= j < i implies text::without_suffix(
        t,
        (#[trigger] units()[j]).0,
    ) is None by {
        let p = units()[j].0;
        if i < 6 {
            assert(p.len() == 2 && u.len() == 2);
            assert(t[t.len() - 2] == u[0]);
            lemma_other_end(t, p, 2);
        } else {
            lemma_other_end(t, p, 1);
        }
    }
    lemma_unit_found(t, units(), i);
    float_text::lemma_digits_literal(d);
    if n > 0 {
        binary64::lemma_scaled_exact(n, f);
        assert(n * float_text::ten_to(0) == n) by (nonlinear_arith)
            requires
                float_text::ten_to(0) == 1,
        ;
    } else {
        assert(n * f == 0) by (nonlinear_arith)
            requires
                n == 0,
        ;
    }
}

proof fn lemma_no_unit(t: Seq<char>, table: Seq<(Seq<char>, nat)>)
    requires
        forall|j: int|
            0 <= j < table.len() ==> text::without_suffix(t, (#[trigger] table[j]).0) is None,
    ensures
        unit_of(t, table) is None,
    decreases table.len(),
{
    if table.len() > 0 {
        assert(text::without_suffix(t, table[0].0) is None);
        let rest = table.skip(1);
        assert forall|j: int| 0 <= j < rest.len() implies text::without_suffix(
            t,
            (#[trigger] rest[j]).0,
        ) is None by {
            assert(rest[j] == table[j + 1]);
        }
        lemma_no_unit(t, rest);
    }
}

/// A count of bytes, written in digits without a unit, is that count.
pub proof fn lemma_plain_count(n: nat)
    requires
        n <= u64::MAX,
    ensures
        bytes(number::digits(n)) == Some(n as int),
{
    let d = number::digits(n);
    number::lemma_digits(n);
    number::lemma_unsigned_round_trip(n, u64::MAX as int);
    assert(number::is_digit(d[0]));
    assert(number::is_digit(d.last()));
    lemma_nothing_to_trim(d);
    reveal_strlit("Ki");
    reveal_strlit("Mi");
    reveal_strlit("Gi");
    reveal_strlit("Ti");
    reveal_strlit("Pi");
    reveal_strlit("Ei");
    reveal_strlit("K");
    reveal_strlit("M");
    reveal_strlit("G");
    reveal_strlit("T");
    reveal_strlit("P");
    reveal_strlit("E");
    assert forall|j: int| 0 <= j < units().len() implies text::without_suffix(
        d,
        (#[trigger] units()[j]).0,
    ) is None by {
        lemma_other_end(d, units()[j].0, 1);
    }
    lemma_no_unit(d, units());
}

/// Each unit is worth as many of the one before it as its kind says, 1024 of those
/// with an `i` behind the letter and 1000 of the others, and the first of each kind
/// as many bytes.
pub proof fn lemma_units_ascend(i: int)
    requires
        0 <= i < 6,
    ensures
        ({
            let letter = seq!['K', 'M', 'G', 'T', 'P', 'E'][i];
            &&& units().len() == 12
            &&& units()[i].0 == seq![letter, 'i']
            &&& units()[i + 6].0 == seq![letter]
            &&& i == 0 ==> units()[i].1 == 1024 && units()[i + 6].1 == 1000
            &&& i > 0 ==> units()[i].1 == 1024 * units()[i - 1].1 && units()[i + 6].1 == 1000
                * units()[i + 5].1
        }),
{
    reveal_strlit("Ki");
    reveal_strlit("Mi");
    reveal_strlit("Gi");
    reveal_strlit("Ti");
    reveal_strlit("Pi");
    reveal_strlit("Ei");
    reveal_strlit("K");
    reveal_strlit("M");
    reveal_strlit("G");
    reveal_strlit("T");
    reveal_strlit("P");
    reveal_strlit("E");
    let letter = seq!['K', 'M', 'G', 'T', 'P', 'E'][i];
    assert(units()[i].0 =~= seq![letter, 'i']);
    assert(units()[i + 6].0 =~= seq![letter]);
}

} // verus!
