//! Decimal integers as text, read and written.

use vstd::prelude::*;

use crate::text;

verus! {

/// `a / b` for a positive `b`, rounded towards zero.
pub open spec fn quotient(a: int, b: int) -> int {
    if a >= 0 {
        a / b
    } else {
        -((-a) / b)
    }
}

pub open spec fn is_digit(c: char) -> bool {
    '0' <= c <= '9'
}

pub open spec fn all_digits(s: Seq<char>) -> bool {
    forall|i: int| 0 <= i < s.len() ==> is_digit(#[trigger] s[i])
}

/// The number that the digits `s` write down.
pub open spec fn decimal(s: Seq<char>) -> nat
    decreases s.len(),
{
    if s.len() == 0 {
        0
    } else {
        decimal(s.drop_last()) * 10 + ((s.last() as int - '0' as int) as nat)
    }
}

/// The number that `s` writes down where it is one or more digits and the
/// number is at most `max`.
pub open spec fn magnitude(s: Seq<char>, max: int) -> Option<int> {
    if s.len() > 0 && all_digits(s) && decimal(s) <= max {
        Some(decimal(s) as int)
    } else {
        None
    }
}

/// The unsigned integer, at most `max`, that `s` writes down: digits behind an
/// optional plus sign.
pub open spec fn unsigned_value(s: Seq<char>, max: int) -> Option<int> {
    if s.len() > 0 && s[0] == '+' {
        magnitude(s.skip(1), max)
    } else {
        magnitude(s, max)
    }
}

/// The integer from `-max - 1` to `max` that `s` writes down: digits behind an
/// optional sign.
pub open spec fn signed_value(s: Seq<char>, max: int) -> Option<int> {
    if s.len() > 0 && s[0] == '-' {
        match magnitude(s.skip(1), max + 1) {
            Some(m) => Some(-m),
            None => None,
        }
    } else {
        unsigned_value(s, max)
    }
}

pub open spec fn digit_char(d: int) -> char {
    ('0' as int + d) as char
}

/// The shortest digits that write down `n`.
pub open spec fn digits(n: nat) -> Seq<char>
    decreases n,
{
    if n < 10 {
        seq![digit_char(n as int)]
    } else {
        digits(n / 10).push(digit_char((n % 10) as int))
    }
}

/// How an integer is written: its digits, behind a minus sign where it is
/// negative.
pub open spec fn written(i: int) -> Seq<char> {
    if i < 0 {
        seq!['-'] + digits((-i) as nat)
    } else {
        digits(i as nat)
    }
}

pub proof fn lemma_digits(n: nat)
    ensures
        digits(n).len() > 0,
        all_digits(digits(n)),
        decimal(digits(n)) == n,
    decreases n,
{
    if n < 10 {
        let s = digits(n);
        assert(s.drop_last() =~= Seq::<char>::empty());
        assert(decimal(s.drop_last()) == 0);
    } else {
        lemma_digits(n / 10);
        let s = digits(n);
        assert(s.drop_last() =~= digits(n / 10));
    }
}

/// What is written of an unsigned integer reads back as that integer.
pub proof fn lemma_unsigned_round_trip(n: nat, max: int)
    requires
        n <= max,
    ensures
        unsigned_value(written(n as int), max) == Some(n as int),
{
    lemma_digits(n);
    assert(is_digit(digits(n)[0]));
}

/// What is written of a signed integer reads back as that integer.
pub proof fn lemma_signed_round_trip(i: int, max: int)
    requires
        -max - 1 <= i <= max,
    ensures
        signed_value(written(i), max) == Some(i),
{
    if i < 0 {
        lemma_digits((-i) as nat);
        assert(written(i).skip(1) =~= digits((-i) as nat));
    } else {
        lemma_digits(i as nat);
        assert(is_digit(digits(i as nat)[0]));
    }
}

/// A written integer is digits and at most a minus sign.
pub proof fn lemma_written_chars(i: int)
    ensures
        forall|j: int|
            0 <= j < written(i).len() ==> is_digit(#[trigger] written(i)[j]) || written(i)[j]
                == '-',
{
    let n = if i < 0 {
        (-i) as nat
    } else {
        i as nat
    };
    let d = digits(n);
    lemma_digits(n);
    assert forall|j: int| 0 <= j < written(i).len() implies is_digit(#[trigger] written(i)[j])
        || written(i)[j] == '-' by {
        if i < 0 {
            if j > 0 {
                assert(written(i)[j] == d[j - 1]);
            }
        } else {
            assert(written(i)[j] == d[j]);
        }
    }
}

/// A beginning of digits writes down no more than all of them.
pub proof fn lemma_decimal_monotone(s: Seq<char>, k: int)
    requires
        0 <= k <= s.len(),
        all_digits(s),
    ensures
        decimal(s.take(k)) <= decimal(s),
    decreases s.len(),
{
    if k == s.len() {
        assert(s.take(k) =~= s);
    } else {
        assert(is_digit(s.last()));
        lemma_decimal_monotone(s.drop_last(), k);
        assert(s.drop_last().take(k) =~= s.take(k));
    }
}

/// The number that the characters of `v` from `from` on write down, where they
/// are digits and the number is at most `max`.
fn read_magnitude(v: &Vec<char>, from: usize, max: u64) -> (r: Option<u64>)
    requires
        from <= v.len(),
    ensures
        r is Some <==> magnitude(v@.skip(from as int), max as int) is Some,
        r matches Some(n) ==> magnitude(v@.skip(from as int), max as int) == Some(n as int),
{
    let ghost s = v@.skip(from as int);
    if from == v.len() {
        return None;
    }
    let mut acc: u64 = 0;
    let mut i: usize = from;
    assert(s.take(0) =~= Seq::<char>::empty());
    while i < v.len()
        invariant
            s == v@.skip(from as int),
            from <= i <= v.len(),
            acc <= max,
            acc == decimal(s.take(i - from)),
            forall|j: int| 0 <= j < i - from ==> is_digit(#[trigger] s[j]),
        decreases v.len() - i,
    {
        let c: char = v[i];
        assert(s[i - from] == c);
        if !('0' <= c && c <= '9') {
            return None;
        }
        let d: u32 = (c as u32) - ('0' as u32);
        let next: u128 = (acc as u128) * 10 + (d as u128);
        assert(next == decimal(s.take(i - from + 1))) by {
            assert(s.take(i - from + 1).drop_last() =~= s.take(i - from));
        }
        if next > max as u128 {
            proof {
                if all_digits(s) {
                    lemma_decimal_monotone(s, i - from + 1);
                }
            }
            return None;
        }
        acc = next as u64;
        i = i + 1;
    }
    assert(s.take(i - from) =~= s);
    Some(acc)
}

/// The unsigned integer, at most `max`, that `s` writes down.
fn read_unsigned(s: &str, max: u64) -> (r: Option<u64>)
    ensures
        r is Some <==> unsigned_value(s@, max as int) is Some,
        r matches Some(n) ==> unsigned_value(s@, max as int) == Some(n as int),
{
    let v = text::chars_of(s);
    assert(s@.skip(0) =~= s@);
    if v.len() > 0 && v[0] == '+' {
        read_magnitude(&v, 1, max)
    } else {
        read_magnitude(&v, 0, max)
    }
}

/// The integer from `-max - 1` to `max` that `s` writes down.
fn read_signed(s: &str, max: i64) -> (r: Option<i64>)
    requires
        max >= 0,
    ensures
        r is Some <==> signed_value(s@, max as int) is Some,
        r matches Some(n) ==> signed_value(s@, max as int) == Some(n as int),
{
    let v = text::chars_of(s);
    if v.len() > 0 && v[0] == '-' {
        match read_magnitude(&v, 1, max as u64 + 1) {
            Some(m) => {
                let n: i128 = -(m as i128);
                Some(n as i64)
            },
            None => None,
        }
    } else {
        match read_unsigned(s, max as u64) {
            Some(m) => Some(m as i64),
            None => None,
        }
    }
}

/// Reads a number of at most `max` from digits alone.
pub fn parse_digits(s: &str, max: u64) -> (r: Option<u64>)
    ensures
        r is Some <==> magnitude(s@, max as int) is Some,
        r matches Some(n) ==> magnitude(s@, max as int) == Some(n as int),
{
    let v = text::chars_of(s);
    assert(v@.skip(0) =~= s@);
    read_magnitude(&v, 0, max)
}

pub fn parse_u64(s: &str) -> (r: Option<u64>)
    ensures
        r is Some <==> unsigned_value(s@, u64::MAX as int) is Some,
        r matches Some(n) ==> unsigned_value(s@, u64::MAX as int) == Some(n as int),
{
    read_unsigned(s, u64::MAX)
}

pub fn parse_u16(s: &str) -> (r: Option<u16>)
    ensures
        r is Some <==> unsigned_value(s@, u16::MAX as int) is Some,
        r matches Some(n) ==> unsigned_value(s@, u16::MAX as int) == Some(n as int),
{
    match read_unsigned(s, u16::MAX as u64) {
        Some(n) => Some(n as u16),
        None => None,
    }
}

pub fn parse_i32(s: &str) -> (r: Option<i32>)
    ensures
        r is Some <==> signed_value(s@, i32::MAX as int) is Some,
        r matches Some(n) ==> signed_value(s@, i32::MAX as int) == Some(n as int),
{
    match read_signed(s, i32::MAX as i64) {
        Some(n) => Some(n as i32),
        None => None,
    }
}

pub fn parse_i64(s: &str) -> (r: Option<i64>)
    ensures
        r is Some <==> signed_value(s@, i64::MAX as int) is Some,
        r matches Some(n) ==> signed_value(s@, i64::MAX as int) == Some(n as int),
{
    read_signed(s, i64::MAX)
}

fn digit_text(d: u64) -> (s: &'static str)
    requires
        d < 10,
    ensures
        s@ == seq![digit_char(d as int)],
{
    proof {
        reveal_strlit("0");
        reveal_strlit("1");
        reveal_strlit("2");
        reveal_strlit("3");
        reveal_strlit("4");
        reveal_strlit("5");
        reveal_strlit("6");
        reveal_strlit("7");
        reveal_strlit("8");
        reveal_strlit("9");
    }
    match d {
        0 => "0",
        1 => "1",
        2 => "2",
        3 => "3",
        4 => "4",
        5 => "5",
        6 => "6",
        7 => "7",
        8 => "8",
        _ => "9",
    }
}

/// Appends the digits of `n`.
fn push_digits(out: &mut String, n: u64)
    ensures
        final(out)@ == old(out)@ + digits(n as nat),
    decreases n,
{
    if n >= 10 {
        push_digits(out, n / 10);
    }
    let ghost mid = out@;
    out.append(digit_text(n % 10));
    assert(out@ =~= old(out)@ + digits(n as nat));
}

/// How `n` is written.
pub fn u64_text(n: u64) -> (s: String)
    ensures
        s@ == written(n as int),
{
    let mut s = String::new();
    push_digits(&mut s, n);
    assert(s@ =~= digits(n as nat));
    s
}

/// How `n` is written.
pub fn i64_text(n: i64) -> (s: String)
    ensures
        s@ == written(n as int),
{
    if n < 0 {
        let mut s = "-".to_string();
        proof {
            reveal_strlit("-");
        }
        let m: i128 = -(n as i128);
        push_digits(&mut s, m as u64);
        assert(s@ =~= written(n as int));
        s
    } else {
        u64_text(n as u64)
    }
}

/// How `n` is written.
pub fn i32_text(n: i32) -> (s: String)
    ensures
        s@ == written(n as int),
{
    i64_text(n as i64)
}

/// A quotient is rounded towards zero.
pub proof fn lemma_quotient_is(a: int, b: int)
    requires
        b > 0,
    ensures
        a >= 0 ==> b * quotient(a, b) <= a < b * (quotient(a, b) + 1),
        a < 0 ==> b * (quotient(a, b) - 1) < a <= b * quotient(a, b),
{
    assert forall|x: int| x >= 0 implies b * (#[trigger] (x / b)) <= x < b * (x / b + 1) by {
        assert(b * (x / b) <= x < b * (x / b + 1)) by (nonlinear_arith)
            requires
                x >= 0,
                b > 0,
        ;
    }
    if a < 0 {
        let q = (-a) / b;
        assert(b * q <= -a < b * (q + 1));
        assert(b * (-q - 1) == -(b * (q + 1)) && b * (-q) == -(b * q)) by (nonlinear_arith);
    }
}

/// The digits of a number count from the front, ten times as much each as the next.
pub proof fn lemma_decimal_is(s: Seq<char>)
    requires
        all_digits(s),
    ensures
        decimal(s) == s.fold_left(0int, |v: int, c: char| 10 * v + (c as int - 48)),
    decreases s.len(),
{
    if s.len() > 0 {
        assert(is_digit(s[s.len() - 1]));
        assert(all_digits(s.drop_last())) by {
            assert forall|i: int| 0 <= i < s.drop_last().len() implies is_digit(
                #[trigger] s.drop_last()[i],
            ) by {
                assert(is_digit(s[i]));
            }
        }
        lemma_decimal_is(s.drop_last());
    }
}

/// Digits are a number as far as it is no larger than it may be, and so are digits
/// behind a sign, of which an unsigned number has no minus. Anything else is none.
pub proof fn lemma_numbers_are(s: Seq<char>, max: int)
    requires
        max >= 0,
    ensures
        ({
            let digits = s.len() > 0 && forall|i: int|
                0 <= i < s.len() ==> '0' <= #[trigger] s[i] <= '9';
            &&& magnitude(s, max) is Some <==> digits && decimal(s) <= max
            &&& digits && decimal(s) <= max ==> {
                &&& magnitude(s, max) == Some(decimal(s) as int)
                &&& unsigned_value(s, max) == Some(decimal(s) as int)
                &&& signed_value(s, max) == Some(decimal(s) as int)
                &&& unsigned_value(seq!['+'] + s, max) == Some(decimal(s) as int)
                &&& signed_value(seq!['+'] + s, max) == Some(decimal(s) as int)
            }
            &&& digits && decimal(s) > max ==> {
                &&& unsigned_value(s, max) is None
                &&& signed_value(s, max) is None
            }
            &&& digits && decimal(s) <= max + 1 ==> signed_value(seq!['-'] + s, max) == Some(
                -(decimal(s) as int),
            )
            &&& digits && decimal(s) > max + 1 ==> signed_value(seq!['-'] + s, max) is None
            &&& unsigned_value(seq!['-'] + s, max) is None
            &&& !digits ==> {
                &&& unsigned_value(seq!['+'] + s, max) is None
                &&& signed_value(seq!['+'] + s, max) is None
                &&& signed_value(seq!['-'] + s, max) is None
            }
        }),
{
    let digits = s.len() > 0 && forall|i: int| 0 <= i < s.len() ==> '0' <= #[trigger] s[i] <= '9';
    assert(digits <==> s.len() > 0 && all_digits(s)) by {
        if s.len() > 0 && all_digits(s) {
            assert forall|i: int| 0 <= i < s.len() implies '0' <= #[trigger] s[i] <= '9' by {
                assert(is_digit(s[i]));
            }
        }
    }
    if digits {
        assert('0' <= s[0] <= '9');
    }
    assert((seq!['+'] + s).skip(1) =~= s);
    assert((seq!['-'] + s).skip(1) =~= s);
    assert(!is_digit((seq!['-'] + s)[0]));
}

} // verus!
