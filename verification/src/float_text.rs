//! Decimal numbers with a point or an exponent, as text, and their floating-point
//! products. Words such as `inf` and `nan` are no numbers.

use vstd::prelude::*;

use crate::big::Big;
use crate::binary64;
use crate::number;
use crate::text;

verus! {

/// The number that a literal denotes: `digits * 10^exponent`, or its negative.
pub ghost struct Literal {
    pub negative: bool,
    pub digits: nat,
    pub exponent: int,
}

pub open spec fn has_sign(s: Seq<char>) -> bool {
    s.len() > 0 && (s[0] == '+' || s[0] == '-')
}

pub open spec fn is_negative(s: Seq<char>) -> bool {
    s.len() > 0 && s[0] == '-'
}

/// `s` behind its sign, where it has one.
pub open spec fn unsigned_part(s: Seq<char>) -> Seq<char> {
    if has_sign(s) {
        s.skip(1)
    } else {
        s
    }
}

/// The exponent that `s` writes down: digits behind an optional sign.
pub open spec fn exponent_value(s: Seq<char>) -> Option<int> {
    let d = unsigned_part(s);
    if d.len() > 0 && number::all_digits(d) {
        Some(
            if is_negative(s) {
                -(number::decimal(d) as int)
            } else {
                number::decimal(d) as int
            },
        )
    } else {
        None
    }
}

/// Where the exponent mark stands in `s`; the length of `s` where there is none.
pub open spec fn mark(s: Seq<char>) -> int {
    let a = text::first_index(s, 'e');
    let b = text::first_index(s, 'E');
    if a < b {
        a
    } else {
        b
    }
}

/// The digits of `m` before its point.
pub open spec fn whole_digits(m: Seq<char>) -> Seq<char> {
    m.take(text::first_index(m, '.'))
}

/// The digits of `m` behind its point.
pub open spec fn fraction_digits(m: Seq<char>) -> Seq<char> {
    if text::first_index(m, '.') < m.len() {
        m.skip(text::first_index(m, '.') + 1)
    } else {
        Seq::empty()
    }
}

/// Whether `m` is digits with at most one point among or around them.
pub open spec fn is_mantissa(m: Seq<char>) -> bool {
    &&& number::all_digits(whole_digits(m))
    &&& number::all_digits(fraction_digits(m))
    &&& whole_digits(m).len() + fraction_digits(m).len() > 0
}

/// The power of ten behind the mantissa of `s`.
pub open spec fn written_exponent(s: Seq<char>) -> Option<int> {
    if mark(s) < s.len() {
        exponent_value(s.skip(mark(s) + 1))
    } else {
        Some(0)
    }
}

/// What the literal `s` denotes: digits with at most one point and an optional
/// exponent, behind an optional sign.
pub open spec fn literal(s: Seq<char>) -> Option<Literal> {
    let u = unsigned_part(s);
    let m = u.take(mark(u));
    if is_mantissa(m) {
        match written_exponent(u) {
            Some(e) => Some(
                Literal {
                    negative: is_negative(s),
                    digits: number::decimal(whole_digits(m) + fraction_digits(m)),
                    exponent: e - fraction_digits(m).len(),
                },
            ),
            None => None,
        }
    } else {
        None
    }
}

pub open spec fn ten_to(k: nat) -> nat
    decreases k,
{
    if k == 0 {
        1
    } else {
        10 * ten_to((k - 1) as nat)
    }
}

/// What the floating-point product of the literal `l` and `m` is as a 64-bit whole
/// number: zero for what is below zero, and the largest one for what is above it.
pub open spec fn scaled_literal(l: Literal, m: nat) -> nat {
    if l.negative || l.digits == 0 {
        0
    } else if l.exponent >= 0 {
        binary64::scaled(l.digits * ten_to(l.exponent as nat), 1, m)
    } else {
        binary64::scaled(l.digits, ten_to((-l.exponent) as nat), m)
    }
}

/// A literal that was read. The exponent is exact up to a bound that no length of
/// digits makes up for.
struct Read {
    negative: bool,
    digits: Vec<char>,
    exponent: i128,
}

/// From here on an exponent is too far from zero for its digits to matter.
pub open spec fn far() -> int {
    0x10_0000_0000_0000_0000_0000_0000
}

/// Whether `e` stands for the exponent `x`: it is `x`, or both are far off on
/// the same side.
pub open spec fn stands_for(e: int, x: int) -> bool {
    ||| e == x
    ||| e >= far() - usize::MAX && x >= far() - usize::MAX
    ||| e <= -far() && x <= -far()
}

impl Read {
    spec fn matches_literal(self, l: Literal) -> bool {
        &&& self.negative == l.negative
        &&& number::all_digits(self.digits@)
        &&& number::decimal(self.digits@) == l.digits
        &&& stands_for(self.exponent as int, l.exponent)
        &&& self.exponent > i128::MIN
    }
}

/// The characters of `v` from `a` to `b`.
fn part(v: &Vec<char>, a: usize, b: usize) -> (r: Vec<char>)
    requires
        a <= b <= v.len(),
    ensures
        r@ == v@.subrange(a as int, b as int),
{
    let mut r: Vec<char> = Vec::new();
    let mut i: usize = a;
    while i < b
        invariant
            a <= i <= b <= v.len(),
            r@ == v@.subrange(a as int, i as int),
        decreases b - i,
    {
        r.push(v[i]);
        i = i + 1;
    }
    r
}

fn only_digits(v: &Vec<char>) -> (b: bool)
    ensures
        b == number::all_digits(v@),
{
    let mut i: usize = 0;
    while i < v.len()
        invariant
            i <= v.len(),
            forall|j: int| 0 <= j < i ==> number::is_digit(#[trigger] v@[j]),
        decreases v.len() - i,
    {
        let c: char = v[i];
        if !('0' <= c && c <= '9') {
            assert(!number::is_digit(v@[i as int]));
            return false;
        }
        i = i + 1;
    }
    true
}

/// The number that the digits `v` write down, or some number that is far off
/// where that is.
fn read_far(v: &Vec<char>) -> (r: i128)
    requires
        number::all_digits(v@),
    ensures
        0 <= r <= 11 * far(),
        r == number::decimal(v@) || (r >= far() && number::decimal(v@) >= far()),
{
    let mut acc: i128 = 0;
    let mut i: usize = 0;
    assert(v@.take(0) =~= Seq::<char>::empty());
    while i < v.len()
        invariant
            number::all_digits(v@),
            i <= v.len(),
            0 <= acc < far(),
            acc == number::decimal(v@.take(i as int)),
        decreases v.len() - i,
    {
        let c: char = v[i];
        assert(number::is_digit(v@[i as int]));
        let d: u32 = (c as u32) - ('0' as u32);
        assert(v@.take(i + 1).drop_last() =~= v@.take(i as int));
        acc = acc * 10 + d as i128;
        if acc >= 0x10_0000_0000_0000_0000_0000_0000 {
            proof {
                number::lemma_decimal_monotone(v@, i + 1);
            }
            return acc;
        }
        i = i + 1;
    }
    assert(v@.take(i as int) =~= v@);
    acc
}

/// The exponent that `v` writes down, or one that is as far off.
fn read_exponent(v: &Vec<char>) -> (r: Option<i128>)
    ensures
        r is Some <==> exponent_value(v@) is Some,
        r matches Some(e) ==> {
            let x = exponent_value(v@)->0;
            &&& -11 * far() <= e <= 11 * far()
            &&& e == x || (e >= far() && x >= far()) || (e <= -far() && x <= -far())
        },
{
    let signed = v.len() > 0 && (v[0] == '+' || v[0] == '-');
    let d = if signed {
        part(v, 1, v.len())
    } else {
        part(v, 0, v.len())
    };
    assert(d@ =~= unsigned_part(v@));
    if d.len() == 0 || !only_digits(&d) {
        return None;
    }
    let m: i128 = read_far(&d);
    if v.len() > 0 && v[0] == '-' {
        Some(-m)
    } else {
        Some(m)
    }
}

/// The digits of a mantissa and how many of them stand behind its point.
fn read_mantissa(m: &Vec<char>) -> (r: Option<(Vec<char>, usize)>)
    ensures
        r is Some <==> is_mantissa(m@),
        r matches Some((digits, places)) ==> {
            &&& digits@ == whole_digits(m@) + fraction_digits(m@)
            &&& places == fraction_digits(m@).len()
            &&& number::all_digits(digits@)
        },
{
    let point: usize = text::index_from(m, '.', 0);
    assert(m@.skip(0) =~= m@);
    let whole = part(m, 0, point);
    let fraction = if point < m.len() {
        part(m, point + 1, m.len())
    } else {
        Vec::new()
    };
    assert(whole@ =~= whole_digits(m@));
    assert(fraction@ =~= fraction_digits(m@));
    if !only_digits(&whole) || !only_digits(&fraction) || (whole.len() == 0 && fraction.len()
        == 0) {
        return None;
    }
    let places: usize = fraction.len();
    let mut digits = whole;
    let mut i: usize = 0;
    while i < places
        invariant
            places == fraction.len(),
            i <= places,
            digits@ == whole_digits(m@) + fraction@.take(i as int),
        decreases places - i,
    {
        digits.push(fraction[i]);
        assert(digits@ =~= whole_digits(m@) + fraction@.take(i + 1));
        i = i + 1;
    }
    proof {
        assert(fraction@.take(places as int) =~= fraction@);
        let w = whole_digits(m@);
        let f = fraction_digits(m@);
        assert forall|j: int| 0 <= j < (w + f).len() implies number::is_digit(
            #[trigger] (w + f)[j],
        ) by {
            if j < w.len() {
                assert(number::is_digit(w[j]));
            } else {
                assert(number::is_digit(f[j - w.len()]));
            }
        }
    }
    Some((digits, places))
}

/// Reads a literal.
fn read(s: &str) -> (r: Option<Read>)
    ensures
        r is Some <==> literal(s@) is Some,
        r matches Some(x) ==> x.matches_literal(literal(s@)->0),
{
    let v = text::chars_of(s);
    let n: usize = v.len();
    let signed = n > 0 && (v[0] == '+' || v[0] == '-');
    let negative = n > 0 && v[0] == '-';
    let from: usize = if signed {
        1
    } else {
        0
    };
    let ghost u = unsigned_part(s@);
    assert(v@.skip(from as int) =~= u);
    let e1: usize = text::index_from(&v, 'e', from);
    let e2: usize = text::index_from(&v, 'E', from);
    let end: usize = if e1 < e2 {
        e1
    } else {
        e2
    };
    assert(mark(u) == end - from);
    let mantissa = part(&v, from, end);
    assert(mantissa@ =~= u.take(mark(u)));
    let (digits, places) = match read_mantissa(&mantissa) {
        Some(m) => m,
        None => {
            return None;
        },
    };
    let exponent: i128 = if end < n {
        let tail = part(&v, end + 1, n);
        assert(tail@ =~= u.skip(mark(u) + 1));
        match read_exponent(&tail) {
            Some(e) => e,
            None => {
                return None;
            },
        }
    } else {
        0
    };
    Some(Read { negative, digits, exponent: exponent - places as i128 })
}

/// Whether `s` is a literal.
pub fn is_literal(s: &str) -> (b: bool)
    ensures
        b == (literal(s@) is Some),
{
    read(s).is_some()
}

/// The number that the digits `v` write down.
fn read_big(v: &Vec<char>) -> (r: Big)
    requires
        number::all_digits(v@),
    ensures
        r@ == number::decimal(v@),
{
    let mut r = Big::zero();
    let mut i: usize = 0;
    assert(v@.take(0) =~= Seq::<char>::empty());
    while i < v.len()
        invariant
            number::all_digits(v@),
            i <= v.len(),
            r@ == number::decimal(v@.take(i as int)),
        decreases v.len() - i,
    {
        let c: char = v[i];
        assert(number::is_digit(v@[i as int]));
        let d: u32 = (c as u32) - ('0' as u32);
        assert(v@.take(i + 1).drop_last() =~= v@.take(i as int));
        r = r.times_plus(10, d);
        i = i + 1;
    }
    assert(v@.take(i as int) =~= v@);
    r
}

/// `n * 10^k`.
fn times_ten_to(n: Big, k: u128) -> (r: Big)
    ensures
        r@ == n@ * ten_to(k as nat),
{
    let ghost n0 = n@;
    let mut r = n;
    let mut i: u128 = 0;
    assert(n0 * ten_to(0) == n0) by (nonlinear_arith)
        requires
            ten_to(0) == 1,
    ;
    while i < k
        invariant
            n0 == n@,
            i <= k,
            r@ == n0 * ten_to(i as nat),
        decreases k - i,
    {
        proof {
            let t = ten_to(i as nat);
            assert(n0 * (10 * t) == (n0 * t) * 10) by (nonlinear_arith);
        }
        r = r.times_plus(10, 0);
        i = i + 1;
    }
    r
}

proof fn lemma_decimal_bound(s: Seq<char>)
    requires
        number::all_digits(s),
    ensures
        number::decimal(s) < ten_to(s.len()),
    decreases s.len(),
{
    if s.len() > 0 {
        assert(number::is_digit(s.last()));
        lemma_decimal_bound(s.drop_last());
    }
}

proof fn lemma_ten_adds(a: nat, b: nat)
    ensures
        ten_to(a + b) == ten_to(a) * ten_to(b),
    decreases a,
{
    if a == 0 {
        assert(ten_to(0) * ten_to(b) == ten_to(b)) by (nonlinear_arith)
            requires
                ten_to(0) == 1,
        ;
    } else {
        lemma_ten_adds((a - 1) as nat, b);
        let x = ten_to((a - 1) as nat);
        let y = ten_to(b);
        assert((10 * x) * y == 10 * (x * y)) by (nonlinear_arith);
        assert((a + b - 1) as nat == (a - 1) as nat + b);
    }
}

proof fn lemma_ten_monotone(a: nat, b: nat)
    requires
        a <= b,
    ensures
        1 <= ten_to(a) <= ten_to(b),
    decreases b,
{
    if b > 0 {
        if a < b {
            lemma_ten_monotone(a, (b - 1) as nat);
        } else {
            lemma_ten_monotone((a - 1) as nat, (b - 1) as nat);
        }
    }
}

proof fn lemma_ten_constants()
    ensures
        ten_to(20) == 100_000_000_000_000_000_000,
        ten_to(23) == 100_000_000_000_000_000_000_000,
{
    reveal_with_fuel(ten_to, 24);
}

/// A literal with this many zeros behind its digits saturates.
proof fn lemma_large(digits: nat, x: int, m: nat)
    requires
        digits >= 1,
        x >= 20,
        m >= 1,
    ensures
        scaled_literal(Literal { negative: false, digits, exponent: x }, m) == u64::MAX,
{
    lemma_ten_monotone(20, x as nat);
    lemma_ten_constants();
    let t = ten_to(x as nat);
    assert(digits * t >= t) by (nonlinear_arith)
        requires
            digits >= 1,
    ;
    binary64::lemma_two_constants();
    binary64::lemma_saturates(digits * t, 1, m);
}

/// A literal whose point stands this far to the left vanishes.
proof fn lemma_small(s: Seq<char>, x: int, m: nat)
    requires
        number::all_digits(s),
        number::decimal(s) >= 1,
        -x >= s.len() + 23,
        1 <= m <= binary64::two_to(60),
    ensures
        scaled_literal(
            Literal { negative: false, digits: number::decimal(s), exponent: x },
            m,
        ) == 0,
{
    lemma_decimal_bound(s);
    lemma_ten_adds(s.len(), 23);
    lemma_ten_monotone(s.len() + 23, (-x) as nat);
    lemma_ten_constants();
    binary64::lemma_two_constants();
    let n = number::decimal(s);
    let z = binary64::two_to(68);
    reveal_with_fuel(binary64::two_to, 5);
    assert(z == 16 * binary64::two_to(64));
    let t = ten_to(s.len());
    assert(n * z < t * 100_000_000_000_000_000_000_000) by (nonlinear_arith)
        requires
            n < t,
            z < 100_000_000_000_000_000_000_000,
            n >= 1,
    ;
    binary64::lemma_vanishes(n, ten_to((-x) as nat), m);
}

/// The floating-point product of the number that `s` writes down and `m`, as a
/// 64-bit whole number; nothing where `s` is no number.
pub fn scale_literal(s: &str, m: u64) -> (r: Option<u64>)
    requires
        1 <= m <= binary64::two_to(60),
    ensures
        r is Some <==> literal(s@) is Some,
        r matches Some(n) ==> n == scaled_literal(literal(s@)->0, m as nat),
{
    match read(s) {
        None => None,
        Some(Read { negative, digits, exponent }) => {
            let ghost x = literal(s@)->0.exponent;
            let n = read_big(&digits);
            if negative || n.is_zero() {
                return Some(0);
            }
            if exponent >= 20 {
                proof {
                    lemma_large(n@, x, m as nat);
                }
                return Some(u64::MAX);
            }
            if exponent >= 0 {
                let num = times_ten_to(n, exponent as u128);
                proof {
                    lemma_ten_monotone(0, exponent as nat);
                    let t = ten_to(exponent as nat);
                    assert(num@ >= 1) by (nonlinear_arith)
                        requires
                            num@ == n@ * t,
                            n@ >= 1,
                            t >= 1,
                    ;
                }
                return Some(binary64::scale(num, Big::one(), m));
            }
            let places: i128 = -exponent;
            if places >= digits.len() as i128 + 23 {
                proof {
                    lemma_small(digits@, x, m as nat);
                }
                return Some(0);
            }
            let den = times_ten_to(Big::one(), places as u128);
            proof {
                lemma_ten_monotone(0, places as nat);
                assert(1 * ten_to(places as nat) == ten_to(places as nat));
            }
            Some(binary64::scale(n, den, m))
        },
    }
}

/// Plain digits are the literal of the number that they write down.
pub proof fn lemma_digits_literal(s: Seq<char>)
    requires
        s.len() > 0,
        number::all_digits(s),
    ensures
        literal(s) == Some(
            Literal { negative: false, digits: number::decimal(s), exponent: 0 },
        ),
{
    assert(number::is_digit(s[0]));
    assert(unsigned_part(s) == s);
    assert forall|j: int| 0 <= j < s.len() implies s[j] != 'e' && s[j] != 'E' && s[j] != '.' by {
        assert(number::is_digit(s[j]));
    }
    text::lemma_first_index_is(s, 'e', s.len() as int);
    text::lemma_first_index_is(s, 'E', s.len() as int);
    text::lemma_first_index_is(s, '.', s.len() as int);
    assert(s.take(s.len() as int) =~= s);
    assert(whole_digits(s) == s);
    assert(fraction_digits(s) =~= Seq::<char>::empty());
    assert(s + Seq::<char>::empty() =~= s);
}

/// A literal denotes the digits around its point, read as one number, times ten to
/// the power that stands behind the mark less the digits behind the point. A minus
/// sign in front makes it negative, a plus sign changes nothing.
pub proof fn lemma_literal_is(w: Seq<char>, f: Seq<char>, e: int)
    requires
        number::all_digits(w),
        number::all_digits(f),
        w.len() + f.len() > 0,
    ensures
        ({
            let body = w + seq!['.'] + f;
            let plain = Literal {
                negative: false,
                digits: number::decimal(w + f),
                exponent: -(f.len() as int),
            };
            &&& literal(body) == Some(plain)
            &&& literal(seq!['+'] + body) == Some(plain)
            &&& literal(seq!['-'] + body) == Some(Literal { negative: true, ..plain })
            &&& literal(body + seq!['e'] + number::written(e)) == Some(
                Literal { exponent: e - f.len(), ..plain },
            )
            &&& literal(body + seq!['E'] + number::written(e)) == Some(
                Literal { exponent: e - f.len(), ..plain },
            )
        }),
{
    let body = w + seq!['.'] + f;
    let x = number::written(e);
    lemma_mantissa(w, f);
    assert forall|j: int| 0 <= j < body.len() implies body[j] != 'e' && body[j] != 'E' && body[j]
        != '+' && body[j] != '-' by {
        if j < w.len() {
            assert(number::is_digit(w[j]));
        } else if j > w.len() {
            assert(number::is_digit(f[j - w.len() - 1]));
        }
    }
    let n = body.len() as int;
    text::lemma_first_index_is(body, 'e', n);
    text::lemma_first_index_is(body, 'E', n);
    assert(body.take(n) =~= body);
    assert(body[0] != '+' && body[0] != '-');
    assert((seq!['+'] + body).skip(1) =~= body);
    assert((seq!['-'] + body).skip(1) =~= body);
    lemma_exponent_is(e);
    let a = body + seq!['e'] + x;
    let b = body + seq!['E'] + x;
    number::lemma_written_chars(e);
    assert(a[0] == body[0] && b[0] == body[0]);
    assert(a[n] == 'e' && b[n] == 'E');
    assert forall|j: int| 0 <= j < n implies a[j] != 'e' && a[j] != 'E' && b[j] != 'e' && b[j]
        != 'E' by {
        assert(a[j] == body[j] && b[j] == body[j]);
    }
    assert forall|j: int| 0 <= j < x.len() implies x[j] != 'e' && x[j] != 'E' by {
        assert(number::is_digit(x[j]) || x[j] == '-');
    }
    assert forall|j: int| 0 <= j < a.len() implies a[j] != 'E' by {
        if j > n {
            assert(a[j] == x[j - n - 1]);
        }
    }
    assert forall|j: int| 0 <= j < b.len() implies b[j] != 'e' by {
        if j > n {
            assert(b[j] == x[j - n - 1]);
        }
    }
    text::lemma_first_index_is(a, 'e', n);
    text::lemma_first_index_is(a, 'E', a.len() as int);
    text::lemma_first_index_is(b, 'E', n);
    text::lemma_first_index_is(b, 'e', b.len() as int);
    assert(a.take(n) =~= body && b.take(n) =~= body);
    assert(a.skip(n + 1) =~= x && b.skip(n + 1) =~= x);
}

proof fn lemma_mantissa(w: Seq<char>, f: Seq<char>)
    requires
        number::all_digits(w),
        number::all_digits(f),
    ensures
        whole_digits(w + seq!['.'] + f) == w,
        fraction_digits(w + seq!['.'] + f) == f,
{
    let body = w + seq!['.'] + f;
    assert forall|j: int| 0 <= j < w.len() implies body[j] != '.' by {
        assert(number::is_digit(w[j]));
    }
    text::lemma_first_index_is(body, '.', w.len() as int);
    assert(body.take(w.len() as int) =~= w);
    assert(body.skip(w.len() as int + 1) =~= f);
}

proof fn lemma_exponent_is(e: int)
    ensures
        exponent_value(number::written(e)) == Some(e),
{
    let x = number::written(e);
    if e < 0 {
        number::lemma_digits((-e) as nat);
        assert(x.skip(1) =~= number::digits((-e) as nat));
    } else {
        number::lemma_digits(e as nat);
        assert(number::is_digit(x[0]));
    }
}

} // verus!
