//! Arithmetic in binary floating point of double precision, on exact integers.
//!
//! A positive number is held as a significand of 53 bits and a power of two.
//! The exponent has no bounds: a result too large or too small for the format
//! is only ever read off as a whole number of 64 bits, where it ends up at the
//! same bound either way.

use vstd::prelude::*;

use crate::big::Big;

verus! {

pub open spec fn two_to(k: nat) -> nat
    decreases k,
{
    if k == 0 {
        1
    } else {
        2 * two_to((k - 1) as nat)
    }
}

/// The number `significand * 2^exponent`.
pub ghost struct Float {
    pub significand: nat,
    pub exponent: int,
}

impl Float {
    pub open spec fn num(self) -> nat {
        if self.exponent >= 0 {
            self.significand * two_to(self.exponent as nat)
        } else {
            self.significand
        }
    }

    pub open spec fn den(self) -> nat {
        if self.exponent >= 0 {
            1
        } else {
            two_to((-self.exponent) as nat)
        }
    }
}

/// The whole number `q * 2^k`.
pub open spec fn held(q: nat, k: nat) -> nat {
    q * two_to(k)
}

/// Whether a significand of 53 bits holds the whole number `x` exactly.
pub open spec fn is_exact(x: nat) -> bool {
    exists|q: nat, k: nat| q < two_to(53) && x == #[trigger] held(q, k)
}

/// The numerator of `num / den / 2^e`.
pub open spec fn scaled_num(num: nat, e: int) -> nat {
    if e >= 0 {
        num
    } else {
        num * two_to((-e) as nat)
    }
}

/// The denominator of `num / den / 2^e`.
pub open spec fn scaled_den(den: nat, e: int) -> nat {
    if e >= 0 {
        den * two_to(e as nat)
    } else {
        den
    }
}

/// Whether the whole part of `num / den / 2^e` has 53 bits.
pub open spec fn in_binade(num: nat, den: nat, e: int) -> bool {
    two_to(52) * scaled_den(den, e) <= scaled_num(num, e) < two_to(53) * scaled_den(den, e)
}

/// The power of two of the last bit that a significand of 53 bits holds of
/// `num / den`.
pub open spec fn last_bit(num: nat, den: nat) -> int {
    choose|e: int| in_binade(num, den, e)
}

/// The whole number nearest to `n / d`, of two equally near ones the even one.
pub open spec fn half_even(n: nat, d: nat) -> nat {
    let q = n / d;
    let r = n % d;
    if 2 * r < d || (2 * r == d && q % 2 == 0) {
        q
    } else {
        q + 1
    }
}

/// The floating-point number nearest to the positive `num / den`.
pub open spec fn nearest(num: nat, den: nat) -> Float {
    let e = last_bit(num, den);
    Float { significand: half_even(scaled_num(num, e), scaled_den(den, e)), exponent: e }
}

/// The floating-point product of `f` and the whole number `m`.
pub open spec fn product(f: Float, m: nat) -> Float {
    nearest(f.num() * m, f.den())
}

/// `f` without what stands behind the point.
pub open spec fn whole_part(f: Float) -> nat {
    f.num() / f.den()
}

/// `n`, or the largest 64-bit number where `n` is above that.
pub open spec fn saturated(n: nat) -> nat {
    if n > u64::MAX {
        u64::MAX as nat
    } else {
        n
    }
}

/// What the floating-point product of `num / den` and `m` is as a 64-bit whole
/// number.
pub open spec fn scaled(num: nat, den: nat, m: nat) -> nat {
    saturated(whole_part(product(nearest(num, den), m)))
}

proof fn lemma_two_positive(k: nat)
    ensures
        two_to(k) >= 1,
    decreases k,
{
    if k > 0 {
        lemma_two_positive((k - 1) as nat);
    }
}

proof fn lemma_two_adds(a: nat, b: nat)
    ensures
        two_to(a + b) == two_to(a) * two_to(b),
    decreases a,
{
    if a == 0 {
        assert(two_to(0) * two_to(b) == two_to(b)) by (nonlinear_arith)
            requires
                two_to(0) == 1,
        ;
    } else {
        lemma_two_adds((a - 1) as nat, b);
        let x = two_to((a - 1) as nat);
        let y = two_to(b);
        assert((2 * x) * y == 2 * (x * y)) by (nonlinear_arith);
        assert((a + b - 1) as nat == (a - 1) as nat + b);
    }
}

proof fn lemma_two_monotone(a: nat, b: nat)
    requires
        a <= b,
    ensures
        two_to(a) <= two_to(b),
{
    lemma_two_adds(a, (b - a) as nat);
    lemma_two_positive((b - a) as nat);
    let x = two_to(a);
    let y = two_to((b - a) as nat);
    assert(x * y >= x) by (nonlinear_arith)
        requires
            y >= 1,
            x >= 0,
    ;
}

pub proof fn lemma_two_constants()
    ensures
        two_to(1) == 2,
        two_to(8) == 0x100,
        two_to(11) == 0x800,
        two_to(12) == 0x1000,
        two_to(52) == 0x10_0000_0000_0000,
        two_to(53) == 0x20_0000_0000_0000,
        two_to(60) == 0x1000_0000_0000_0000,
        two_to(64) == 0x1_0000_0000_0000_0000,
        two_to(113) == 0x2_0000_0000_0000_0000_0000_0000_0000,
{
    reveal_with_fuel(two_to, 9);
    assert(two_to(8) == 0x100);
    assert(two_to(16) == 0x1_0000);
    assert(two_to(24) == 0x100_0000);
    assert(two_to(32) == 0x1_0000_0000);
    assert(two_to(40) == 0x100_0000_0000);
    assert(two_to(48) == 0x1_0000_0000_0000);
    assert(two_to(56) == 0x100_0000_0000_0000);
    assert(two_to(64) == 0x1_0000_0000_0000_0000);
    lemma_two_adds(49, 64);
    assert(two_to(49) == 0x2_0000_0000_0000);
    assert(two_to(113) == 0x2_0000_0000_0000 * 0x1_0000_0000_0000_0000);
}

/// Scaling by `2^e1` and by `2^e2` differ by the factor `2^(e2 - e1)`.
proof fn lemma_cross(num: nat, den: nat, e1: int, e2: int)
    requires
        e1 <= e2,
    ensures
        scaled_num(num, e1) * scaled_den(den, e2) == (scaled_num(num, e2) * scaled_den(den, e1))
            * two_to((e2 - e1) as nat),
{
    let k = two_to((e2 - e1) as nat);
    if e1 >= 0 {
        lemma_two_adds(e1 as nat, (e2 - e1) as nat);
        let a = two_to(e1 as nat);
        assert(num * (den * (a * k)) == (num * (den * a)) * k) by (nonlinear_arith);
    } else if e2 >= 0 {
        lemma_two_adds((-e1) as nat, e2 as nat);
        let a = two_to((-e1) as nat);
        let b = two_to(e2 as nat);
        assert((e2 - e1) as nat == (-e1) as nat + e2 as nat);
        assert((num * a) * (den * b) == (num * den) * (a * b)) by (nonlinear_arith);
    } else {
        lemma_two_adds((-e2) as nat, (e2 - e1) as nat);
        let b = two_to((-e2) as nat);
        assert((-e1) as nat == (-e2) as nat + (e2 - e1) as nat);
        assert((num * (b * k)) * den == ((num * b) * den) * k) by (nonlinear_arith);
    }
}

proof fn lemma_scaled_positive(num: nat, den: nat, e: int)
    requires
        num > 0,
        den > 0,
    ensures
        scaled_num(num, e) > 0,
        scaled_den(den, e) > 0,
{
    if e >= 0 {
        lemma_two_positive(e as nat);
        let t = two_to(e as nat);
        assert(den * t > 0) by (nonlinear_arith)
            requires
                den > 0,
                t > 0,
        ;
    } else {
        lemma_two_positive((-e) as nat);
        let t = two_to((-e) as nat);
        assert(num * t > 0) by (nonlinear_arith)
            requires
                num > 0,
                t > 0,
        ;
    }
}

proof fn lemma_not_below(num: nat, den: nat, e1: int, e2: int)
    requires
        num > 0,
        den > 0,
        in_binade(num, den, e1),
        in_binade(num, den, e2),
    ensures
        e1 >= e2,
{
    if e1 < e2 {
        lemma_cross(num, den, e1, e2);
        lemma_scaled_positive(num, den, e1);
        lemma_scaled_positive(num, den, e2);
        let n1 = scaled_num(num, e1);
        let d1 = scaled_den(den, e1);
        let n2 = scaled_num(num, e2);
        let d2 = scaled_den(den, e2);
        let k = two_to((e2 - e1) as nat);
        assert(k >= 2) by {
            lemma_two_positive((e2 - e1 - 1) as nat);
        }
        let h = two_to(52);
        assert(two_to(53) == 2 * h);
        assert((n2 * d1) * k >= (n2 * d1) * 2) by (nonlinear_arith)
            requires
                k >= 2,
                n2 * d1 >= 0,
        ;
        assert(n2 * d1 >= (h * d2) * d1) by (nonlinear_arith)
            requires
                n2 >= h * d2,
                d1 >= 0,
        ;
        assert(n1 * d2 < ((2 * h) * d1) * d2) by (nonlinear_arith)
            requires
                n1 < (2 * h) * d1,
                d2 > 0,
        ;
        assert(((2 * h) * d1) * d2 == ((h * d2) * d1) * 2) by (nonlinear_arith);
    }
}

proof fn lemma_up(num: nat, den: nat, e: int) -> (r: int)
    requires
        den > 0,
        e >= 0,
        two_to(52) * scaled_den(den, e) <= num,
    ensures
        in_binade(num, den, r),
    decreases num - scaled_den(den, e),
{
    let d = scaled_den(den, e);
    lemma_two_constants();
    if num < two_to(53) * d {
        e
    } else {
        lemma_scaled_positive(1, den, e);
        let t = two_to(e as nat);
        assert(scaled_den(den, e + 1) == 2 * d) by {
            assert(den * (2 * t) == 2 * (den * t)) by (nonlinear_arith);
        }
        lemma_up(num, den, e + 1)
    }
}

proof fn lemma_down(num: nat, den: nat, e: int) -> (r: int)
    requires
        num > 0,
        e <= 0,
        scaled_num(num, e) < two_to(53) * den,
        e == 0 ==> scaled_den(den, e) == den,
    ensures
        in_binade(num, den, r),
    decreases two_to(53) * den - scaled_num(num, e),
{
    let n = scaled_num(num, e);
    lemma_two_constants();
    if two_to(52) * den <= n {
        e
    } else {
        assert(scaled_num(num, e - 1) == 2 * n) by {
            let t = two_to((-e) as nat);
            assert(num * (2 * t) == 2 * (num * t)) by (nonlinear_arith);
            assert((-(e - 1)) as nat == (-e) as nat + 1);
            if e == 0 {
                assert(two_to(0) == 1);
                assert(num * 1 == num) by (nonlinear_arith);
            }
        }
        lemma_scaled_positive(num, 1, e);
        lemma_down(num, den, e - 1)
    }
}

/// There is just one exponent that leaves 53 bits of a positive number.
proof fn lemma_last_bit(num: nat, den: nat)
    requires
        num > 0,
        den > 0,
    ensures
        in_binade(num, den, last_bit(num, den)),
        forall|e: int| in_binade(num, den, e) ==> e == last_bit(num, den),
{
    assert(two_to(0) == 1);
    assert(scaled_den(den, 0) == den) by (nonlinear_arith)
        requires
            scaled_den(den, 0) == den * two_to(0),
            two_to(0) == 1,
    ;
    let w = if two_to(52) * den <= num {
        lemma_up(num, den, 0)
    } else {
        assert(two_to(52) * den <= two_to(53) * den) by (nonlinear_arith)
            requires
                two_to(53) == 2 * two_to(52),
                den > 0,
        ;
        lemma_down(num, den, 0)
    };
    assert(in_binade(num, den, w));
    let l = last_bit(num, den);
    assert forall|e: int| in_binade(num, den, e) implies e == l by {
        lemma_not_below(num, den, e, l);
        lemma_not_below(num, den, l, e);
    }
}

proof fn lemma_half_even_bounds(n: nat, d: nat, lo: nat, hi: nat)
    requires
        d > 0,
        lo * d <= n,
        n < hi * d,
    ensures
        lo <= half_even(n, d) <= hi,
{
    let q = n / d;
    assert(lo <= q && q < hi) by (nonlinear_arith)
        requires
            d > 0,
            lo * d <= n,
            n < hi * d,
            q == n / d,
    ;
}

proof fn lemma_nearest_bounds(num: nat, den: nat)
    requires
        num > 0,
        den > 0,
    ensures
        two_to(52) <= nearest(num, den).significand <= two_to(53),
{
    lemma_last_bit(num, den);
    let e = last_bit(num, den);
    lemma_scaled_positive(num, den, e);
    lemma_half_even_bounds(scaled_num(num, e), scaled_den(den, e), two_to(52), two_to(53));
}

proof fn lemma_large_exponent(num: nat, den: nat)
    requires
        den > 0,
        num >= two_to(64) * den,
    ensures
        num > 0,
        last_bit(num, den) >= 12,
{
    lemma_two_constants();
    assert(two_to(64) * den >= two_to(64)) by (nonlinear_arith)
        requires
            den >= 1,
            two_to(64) >= 0,
    ;
    lemma_last_bit(num, den);
    let e = last_bit(num, den);
    if 0 <= e < 12 {
        lemma_two_monotone(e as nat, 11);
        let t = two_to(e as nat);
        assert(two_to(53) * (den * t) <= two_to(64) * den) by (nonlinear_arith)
            requires
                t <= 0x800,
                two_to(53) == 0x20_0000_0000_0000,
                two_to(64) == 0x1_0000_0000_0000_0000,
        ;
    } else if e < 0 {
        lemma_two_positive((-e) as nat);
        let t = two_to((-e) as nat);
        assert(num * t >= num) by (nonlinear_arith)
            requires
                t >= 1,
        ;
        assert(two_to(53) * den <= two_to(64) * den) by (nonlinear_arith)
            requires
                two_to(53) <= two_to(64),
        ;
    }
}

/// Numbers from `2^64` on stay above the largest 64-bit number.
pub proof fn lemma_saturates(num: nat, den: nat, m: nat)
    requires
        den > 0,
        num >= two_to(64) * den,
        m >= 1,
    ensures
        scaled(num, den, m) == u64::MAX,
{
    lemma_two_constants();
    lemma_large_exponent(num, den);
    lemma_nearest_bounds(num, den);
    let f = nearest(num, den);
    lemma_huge_float(f);
    let n = f.num() * m;
    assert(n >= f.num()) by (nonlinear_arith)
        requires
            n == f.num() * m,
            m >= 1,
    ;
    assert(n >= two_to(64) * f.den()) by (nonlinear_arith)
        requires
            n >= two_to(64),
            f.den() == 1,
    ;
    lemma_large_exponent(n, f.den());
    lemma_nearest_bounds(n, f.den());
    let g = nearest(n, f.den());
    lemma_huge_float(g);
    assert(g.num() / 1 == g.num());
}

proof fn lemma_huge_float(f: Float)
    requires
        f.significand >= two_to(52),
        f.exponent >= 12,
    ensures
        f.num() >= two_to(64),
        f.den() == 1,
{
    lemma_two_constants();
    lemma_two_monotone(12, f.exponent as nat);
    let t = two_to(f.exponent as nat);
    assert(f.significand * t >= 0x10_0000_0000_0000 * 0x1000) by (nonlinear_arith)
        requires
            f.significand >= 0x10_0000_0000_0000,
            t >= 0x1000,
    ;
}

/// Numbers below `2^-68` vanish, whatever they are multiplied with.
pub proof fn lemma_vanishes(num: nat, den: nat, m: nat)
    requires
        num > 0,
        num * two_to(68) < den,
        1 <= m <= two_to(60),
    ensures
        scaled(num, den, m) == 0,
{
    lemma_two_constants();
    lemma_last_bit(num, den);
    let e = last_bit(num, den);
    assert(e < -120) by {
        if e >= 0 {
            lemma_two_positive(e as nat);
            lemma_two_positive(68);
            let t = two_to(e as nat);
            assert(two_to(52) * (den * t) >= den) by (nonlinear_arith)
                requires
                    t >= 1,
                    two_to(52) >= 1,
            ;
            let z = two_to(68);
            assert(num * z >= num) by (nonlinear_arith)
                requires
                    z >= 1,
            ;
        } else if e >= -120 {
            lemma_two_monotone((-e) as nat, 120);
            lemma_two_adds(68, 52);
            let t = two_to((-e) as nat);
            let z = two_to(68);
            let h = two_to(52);
            assert(num * t <= (num * z) * h) by (nonlinear_arith)
                requires
                    t <= z * h,
            ;
            assert((num * z) * h < den * h) by (nonlinear_arith)
                requires
                    num * z < den,
                    h >= 1,
            ;
            assert(den * h == h * den) by (nonlinear_arith);
        }
    }
    lemma_nearest_bounds(num, den);
    let f = nearest(num, den);
    let n = f.num() * m;
    let d = f.den();
    assert(1 <= n <= two_to(113)) by (nonlinear_arith)
        requires
            n == f.significand * m,
            1 <= f.significand <= 0x20_0000_0000_0000,
            1 <= m <= 0x1000_0000_0000_0000,
            two_to(113) == 0x2_0000_0000_0000_0000_0000_0000_0000,
    ;
    lemma_two_monotone(121, (-e) as nat);
    lemma_two_positive((-e) as nat);
    lemma_two_adds(113, 8);
    assert(d >= 0x100 * n);
    lemma_last_bit(n, d);
    lemma_nearest_bounds(n, d);
    let g = nearest(n, d);
    let e2 = last_bit(n, d);
    assert(e2 < -58) by {
        if e2 >= 0 {
            lemma_two_positive(e2 as nat);
            let t = two_to(e2 as nat);
            assert(two_to(52) * (d * t) >= d) by (nonlinear_arith)
                requires
                    t >= 1,
                    two_to(52) >= 1,
            ;
        } else if e2 >= -58 {
            lemma_two_monotone((-e2) as nat, 58);
            let t = two_to((-e2) as nat);
            reveal_with_fuel(two_to, 8);
            assert(two_to(58) == 64 * two_to(52));
            assert(n * t <= n * (64 * two_to(52))) by (nonlinear_arith)
                requires
                    t <= 64 * two_to(52),
            ;
            assert(two_to(52) * d >= two_to(52) * (0x100 * n)) by (nonlinear_arith)
                requires
                    d >= 0x100 * n,
            ;
            assert(two_to(52) * (0x100 * n) > n * (64 * two_to(52))) by (nonlinear_arith)
                requires
                    n >= 1,
                    two_to(52) >= 1,
            ;
        }
    }
    lemma_two_monotone(59, (-e2) as nat);
    reveal_with_fuel(two_to, 8);
    assert(g.significand < g.den());
    assert(g.num() / g.den() == 0) by (nonlinear_arith)
        requires
            g.num() < g.den(),
    ;
}

proof fn lemma_half_even_scale(n: nat, d: nat, c: nat)
    requires
        d > 0,
        c > 0,
    ensures
        half_even(n * c, d * c) == half_even(n, d),
{
    let q = n / d;
    let r = n % d;
    assert(n == q * d + r) by (nonlinear_arith)
        requires
            d > 0,
            q == n / d,
            r == n % d,
    ;
    assert(n * c == q * (d * c) + r * c) by (nonlinear_arith)
        requires
            n == q * d + r,
    ;
    assert(r * c < d * c) by (nonlinear_arith)
        requires
            r < d,
            c > 0,
    ;
    assert((n * c) / (d * c) == q && (n * c) % (d * c) == r * c) by (nonlinear_arith)
        requires
            n * c == q * (d * c) + r * c,
            0 <= r * c < d * c,
    ;
    assert(2 * (r * c) < d * c <==> 2 * r < d) by (nonlinear_arith)
        requires
            c > 0,
    ;
    assert(2 * (r * c) == d * c <==> 2 * r == d) by (nonlinear_arith)
        requires
            c > 0,
    ;
}

proof fn lemma_binade_scale(n: nat, d: nat, c: nat)
    requires
        two_to(52) * d <= n < two_to(53) * d,
        c > 0,
    ensures
        two_to(52) * (d * c) <= n * c < two_to(53) * (d * c),
{
    assert(two_to(52) * (d * c) <= n * c) by (nonlinear_arith)
        requires
            two_to(52) * d <= n,
            c > 0,
    ;
    assert(n * c < two_to(53) * (d * c)) by (nonlinear_arith)
        requires
            n < two_to(53) * d,
            c > 0,
    ;
}

/// The float nearest to `p * 2^e`, where `p / 2^k` has a whole part of 53 bits.
proof fn lemma_nearest_of_power(p: nat, e: int, k: nat)
    requires
        p > 0,
        two_to(52) * two_to(k) <= p < two_to(53) * two_to(k),
    ensures
        ({
            let f = Float { significand: p, exponent: e };
            nearest(f.num(), f.den()) == (Float {
                significand: half_even(p, two_to(k)),
                exponent: e + k,
            })
        }),
{
    let f = Float { significand: p, exponent: e };
    let n = f.num();
    let d = f.den();
    lemma_two_positive(k);
    if e >= 0 {
        let c = two_to(e as nat);
        lemma_two_positive(e as nat);
        lemma_two_adds(k, e as nat);
        assert((e + k) as nat == k + e as nat);
        assert(n > 0) by (nonlinear_arith)
            requires
                n == p * c,
                p > 0,
                c > 0,
        ;
        let b = two_to(k);
        assert(scaled_den(1, e + k) == b * c) by (nonlinear_arith)
            requires
                scaled_den(1, e + k) == 1 * two_to((e + k) as nat),
                two_to((e + k) as nat) == b * c,
        ;
        lemma_binade_scale(p, b, c);
        lemma_half_even_scale(p, b, c);
        lemma_last_bit(n, d);
        assert(in_binade(n, d, e + k));
    } else {
        lemma_two_positive((-e) as nat);
        lemma_last_bit(p, d);
        if e + k >= 0 {
            lemma_two_adds((-e) as nat, (e + k) as nat);
            assert(k == (-e) as nat + (e + k) as nat);
            assert(in_binade(p, d, e + k));
        } else {
            let c = two_to((-e - k) as nat);
            let b = two_to(k);
            lemma_two_positive((-e - k) as nat);
            lemma_two_adds(k, (-e - k) as nat);
            assert((-e) as nat == k + (-e - k) as nat);
            lemma_binade_scale(p, b, c);
            lemma_half_even_scale(p, b, c);
            assert((-(e + k)) as nat == (-e - k) as nat);
            assert(in_binade(p, d, e + k));
        }
    }
}

proof fn lemma_product_num(q: nat, e: int, m: nat)
    ensures
        ({
            let f = Float { significand: q, exponent: e };
            let g = Float { significand: q * m, exponent: e };
            f.num() * m == g.num() && f.den() == g.den()
        }),
{
    if e >= 0 {
        let t = two_to(e as nat);
        assert((q * t) * m == (q * m) * t) by (nonlinear_arith);
    }
}

/// `2^k`.
fn power_of_two(k: u32) -> (r: u128)
    requires
        k < 128,
    ensures
        r == two_to(k as nat),
{
    let mut r: u128 = 1;
    let mut i: u32 = 0;
    assert(two_to(0) == 1);
    while i < k
        invariant
            i <= k < 128,
            r == two_to(i as nat),
        decreases k - i,
    {
        proof {
            lemma_two_monotone((i + 1) as nat, 127);
            lemma_two_constants();
            lemma_two_adds(64, 63);
            reveal_with_fuel(two_to, 2);
        }
        r = r * 2;
        i = i + 1;
    }
    r
}

/// The whole part of `q * 2^e`, at most the largest 64-bit number.
fn whole(q: u64, e: i32) -> (r: u64)
    requires
        two_to(52) <= q <= two_to(53),
        -10_000 <= e <= 10_000,
    ensures
        r == saturated(whole_part(Float { significand: q as nat, exponent: e as int })),
{
    let ghost f = Float { significand: q as nat, exponent: e as int };
    proof {
        lemma_two_constants();
    }
    if e >= 12 {
        proof {
            lemma_huge_float(f);
            assert(f.num() / 1 == f.num());
        }
        u64::MAX
    } else if e >= 0 {
        let t: u128 = power_of_two(e as u32);
        proof {
            lemma_two_monotone(e as nat, 11);
            assert(q as nat * t as nat <= 0x20_0000_0000_0000 * 0x800) by (nonlinear_arith)
                requires
                    q <= 0x20_0000_0000_0000,
                    t <= 0x800,
            ;
            assert(f.num() / 1 == f.num());
        }
        let n: u128 = (q as u128) * t;
        if n > u64::MAX as u128 {
            u64::MAX
        } else {
            n as u64
        }
    } else if e <= -64 {
        proof {
            lemma_two_monotone(64, (-e) as nat);
            assert(f.num() / f.den() == 0) by (nonlinear_arith)
                requires
                    f.num() < f.den(),
            ;
        }
        0
    } else {
        let t: u128 = power_of_two((-e) as u32);
        proof {
            lemma_two_positive((-e) as nat);
            assert(q as nat / t as nat <= q as nat) by (nonlinear_arith)
                requires
                    t >= 1,
            ;
        }
        let n: u128 = (q as u128) / t;
        n as u64
    }
}

/// The whole part of the product of `q * 2^e` and `m`.
fn multiply(q: u64, e: i32, m: u64) -> (r: u64)
    requires
        two_to(52) <= q <= two_to(53),
        -1_000 <= e <= 1_000,
        1 <= m <= two_to(60),
    ensures
        r == saturated(
            whole_part(product(Float { significand: q as nat, exponent: e as int }, m as nat)),
        ),
{
    proof {
        lemma_two_constants();
        assert(0x10_0000_0000_0000 <= q as nat * m as nat <= 0x20_0000_0000_0000
            * 0x1000_0000_0000_0000) by (nonlinear_arith)
            requires
                0x10_0000_0000_0000 <= q <= 0x20_0000_0000_0000,
                1 <= m <= 0x1000_0000_0000_0000,
        ;
    }
    let p: u128 = (q as u128) * (m as u128);
    let mut k: u32 = 0;
    let mut d: u128 = 1;
    assert(two_to(0) == 1);
    while p >= 0x20_0000_0000_0000 * d
        invariant
            two_to(52) == 0x10_0000_0000_0000,
            two_to(53) == 0x20_0000_0000_0000,
            0x10_0000_0000_0000 * d <= p <= 0x2_0000_0000_0000_0000_0000_0000_0000,
            d == two_to(k as nat),
            k <= 64,
            d >= 1,
        decreases p - d,
    {
        proof {
            if k >= 61 {
                lemma_two_monotone(61, k as nat);
                lemma_two_constants();
                reveal_with_fuel(two_to, 2);
            }
            reveal_with_fuel(two_to, 2);
        }
        d = d * 2;
        k = k + 1;
    }
    let f: u128 = p / d;
    let r: u128 = p % d;
    proof {
        let pn = p as nat;
        let dn = d as nat;
        let fg = f as nat;
        assert(fg < 0x20_0000_0000_0000) by (nonlinear_arith)
            requires
                pn < 0x20_0000_0000_0000 * dn,
                dn >= 1,
                fg == pn / dn,
        ;
        assert(fg >= 0x10_0000_0000_0000) by (nonlinear_arith)
            requires
                pn >= 0x10_0000_0000_0000 * dn,
                dn >= 1,
                fg == pn / dn,
        ;
        lemma_product_num(q as nat, e as int, m as nat);
        lemma_nearest_of_power(pn, e as int, k as nat);
    }
    let up = 2 * r > d || (2 * r == d && f % 2 != 0);
    let s: u64 = if up {
        f as u64 + 1
    } else {
        f as u64
    };
    whole(s, e + k as i32)
}

proof fn lemma_division(n: nat, dd: nat, q: nat, rem: nat)
    requires
        dd > 0,
        n * two_to(53) == 2 * (q * (two_to(52) * dd)) + rem,
        rem < 2 * (two_to(52) * dd),
    ensures
        q == n / dd,
        rem == two_to(53) * (n % dd),
{
    let h = two_to(52);
    assert(two_to(53) == 2 * h);
    lemma_two_constants();
    let r = n - q * dd;
    assert(rem == (2 * h) * r) by (nonlinear_arith)
        requires
            n * (2 * h) == 2 * (q * (h * dd)) + rem,
            r == n - q * dd,
    ;
    assert(0 <= r < dd) by (nonlinear_arith)
        requires
            rem == (2 * h) * r,
            0 <= rem < 2 * (h * dd),
            h > 0,
            dd > 0,
    ;
    assert(n / dd == q && n % dd == r) by (nonlinear_arith)
        requires
            n == q * dd + r,
            0 <= r < dd,
    ;
}

/// What the floating-point product of `num / den` and `m` is as a 64-bit whole
/// number.
pub fn scale(num: Big, den: Big, m: u64) -> (r: u64)
    requires
        num@ > 0,
        den@ > 0,
        1 <= m <= two_to(60),
    ensures
        r == scaled(num@, den@, m as nat),
{
    let ghost n0 = num@;
    let ghost d0 = den@;
    proof {
        lemma_two_constants();
    }
    // `d` is the denominator times 2^52.
    let mut d = den;
    let mut i: u32 = 0;
    assert(d0 * two_to(0) == d0) by (nonlinear_arith)
        requires
            two_to(0) == 1,
    ;
    while i < 52
        invariant
            i <= 52,
            d@ == d0 * two_to(i as nat),
        decreases 52 - i,
    {
        proof {
            let t0 = two_to(i as nat);
            assert(d0 * (2 * t0) == (d0 * t0) * 2) by (nonlinear_arith);
            reveal_with_fuel(two_to, 2);
        }
        d = d.times_plus(2, 0);
        i = i + 1;
    }
    let mut n = num;
    let mut e: i32 = 0;
    proof {
        assert(scaled_den(d0, 0) == d0) by (nonlinear_arith)
            requires
                scaled_den(d0, 0) == d0 * two_to(0),
                two_to(0) == 1,
        ;
        assert(d0 * two_to(52) == two_to(52) * d0) by (nonlinear_arith);
    }
    // Double the denominator while the quotient has more than 53 bits.
    let mut twice = d.times_plus(2, 0);
    let mut above = n.minus(&twice).is_some();
    while above
        invariant
            two_to(52) == 0x10_0000_0000_0000,
            two_to(64) == 0x1_0000_0000_0000_0000,
            n0 == num@ > 0,
            d0 == den@ > 0,
            1 <= m <= two_to(60),
            0 <= e <= 12,
            n@ == n0,
            d@ == two_to(52) * scaled_den(d0, e as int),
            twice@ == 2 * d@,
            above == (n@ >= 2 * d@),
            e > 0 ==> n@ >= d@,
        decreases 12 - e,
    {
        if e == 12 {
            proof {
                let s = scaled_den(d0, 12);
                lemma_two_constants();
                assert(s == d0 * 0x1000);
                assert(n0 >= two_to(64) * d0);
                lemma_saturates(n0, d0, m as nat);
            }
            return u64::MAX;
        }
        proof {
            let t0 = two_to(e as nat);
            assert(d0 * (2 * t0) == 2 * (d0 * t0)) by (nonlinear_arith);
            assert(scaled_den(d0, e + 1) == 2 * scaled_den(d0, e as int));
        }
        d = twice;
        twice = d.times_plus(2, 0);
        above = n.minus(&twice).is_some();
        e = e + 1;
    }
    // Double the numerator while the quotient has fewer than 53 bits.
    let mut below = n.minus(&d).is_none();
    assert(scaled_num(n0, e as int) == n@);
    while below
        invariant
            two_to(52) == 0x10_0000_0000_0000,
            n0 == num@ > 0,
            d0 == den@ > 0,
            1 <= m <= two_to(60),
            -121 <= e <= 12,
            n@ == scaled_num(n0, e as int),
            d@ == two_to(52) * scaled_den(d0, e as int),
            n@ < 2 * d@,
            below == (n@ < d@),
            below ==> e <= 0,
        decreases e + 121,
    {
        if e == -121 {
            proof {
                lemma_two_adds(68, 53);
                lemma_two_constants();
                let z = two_to(68);
                assert(n0 * z < d0) by (nonlinear_arith)
                    requires
                        n0 * (z * 0x20_0000_0000_0000) < 0x10_0000_0000_0000 * d0,
                ;
                lemma_vanishes(n0, d0, m as nat);
            }
            return 0;
        }
        proof {
            let t0 = two_to((-e) as nat);
            assert((-(e - 1)) as nat == (-e) as nat + 1);
            assert(n0 * (2 * t0) == 2 * (n0 * t0)) by (nonlinear_arith);
            if e == 0 {
                assert(two_to(0) == 1);
                assert(n0 * 1 == n0) by (nonlinear_arith);
                assert(d0 * two_to(0) == d0) by (nonlinear_arith)
                    requires
                        two_to(0) == 1,
                ;
            }
            assert(scaled_num(n0, e - 1) == 2 * scaled_num(n0, e as int));
            assert(scaled_den(d0, e - 1) == scaled_den(d0, e as int));
        }
        n = n.times_plus(2, 0);
        below = n.minus(&d).is_none();
        e = e - 1;
    }
    let ghost nn = n@;
    let ghost dd = scaled_den(d0, e as int);
    proof {
        lemma_scaled_positive(n0, d0, e as int);
        lemma_two_constants();
        lemma_last_bit(n0, d0);
        assert(in_binade(n0, d0, e as int));
        assert(nn * two_to(0) == nn) by (nonlinear_arith)
            requires
                two_to(0) == 1,
        ;
    }
    // Long division, bit by bit.
    let mut rem = n;
    let mut q: u64 = 0;
    let mut i: u32 = 0;
    while i < 53
        invariant
            i <= 53,
            nn * two_to(i as nat) == 2 * (q as nat * d@) + rem@,
            rem@ < 2 * d@,
            q < two_to(i as nat),
        decreases 53 - i,
    {
        let ghost x = q as nat;
        let ghost b = d@;
        let ghost t0 = two_to(i as nat);
        proof {
            lemma_two_monotone(i as nat, 53);
            lemma_two_constants();
            reveal_with_fuel(two_to, 2);
            assert(nn * (2 * t0) == 2 * (nn * t0)) by (nonlinear_arith);
            assert((2 * x) * b == 2 * (x * b)) by (nonlinear_arith);
            assert((2 * x + 1) * b == 2 * (x * b) + b) by (nonlinear_arith);
        }
        match rem.minus(&d) {
            Some(left) => {
                rem = left.times_plus(2, 0);
                q = 2 * q + 1;
            },
            None => {
                rem = rem.times_plus(2, 0);
                q = 2 * q;
            },
        }
        i = i + 1;
    }
    proof {
        lemma_division(nn, dd, q as nat, rem@);
        lemma_half_even_bounds(nn, dd, two_to(52), two_to(53));
        lemma_two_constants();
        let r = nn % dd;
        assert(rem@ > d@ <==> 2 * r > dd);
        assert(rem@ == d@ <==> 2 * r == dd);
    }
    let up = match rem.minus(&d) {
        Some(left) => !left.is_zero() || q % 2 != 0,
        None => false,
    };
    let s: u64 = if up {
        q + 1
    } else {
        q
    };
    assert(s == half_even(nn, dd));
    multiply(s, e, m)
}

/// What is exact is held as it is.
proof fn lemma_nearest_exact(num: nat, den: nat, v: nat)
    requires
        den > 0,
        num == v * den,
        v > 0,
        is_exact(v),
    ensures
        ({
            let f = nearest(num, den);
            f.num() == v * f.den() && f.den() > 0
        }),
{
    assert(num > 0) by (nonlinear_arith)
        requires
            num == v * den,
            v > 0,
            den > 0,
    ;
    lemma_last_bit(num, den);
    let e = last_bit(num, den);
    lemma_two_constants();
    if e > 0 {
        let (q, k) = choose|q: nat, k: nat| q < two_to(53) && v == #[trigger] held(q, k);
        let t = two_to(e as nat);
        let p = two_to(k);
        lemma_two_positive(e as nat);
        lemma_two_positive(k);
        assert(two_to(52) * t <= v) by (nonlinear_arith)
            requires
                two_to(52) * (den * t) <= v * den,
                den > 0,
        ;
        assert(v < two_to(53) * p) by (nonlinear_arith)
            requires
                v == q * p,
                q < two_to(53),
                p > 0,
        ;
        assert(t < 2 * p);
        if e > k {
            lemma_two_monotone(k + 1, e as nat);
            assert(two_to(k + 1) == 2 * p);
        }
        let r = two_to((k - e) as nat);
        lemma_two_adds((k - e) as nat, e as nat);
        assert((k - e) as nat + e as nat == k);
        let w = q * r;
        assert(v == w * t) by (nonlinear_arith)
            requires
                v == q * p,
                p == r * t,
                w == q * r,
        ;
        let d = den * t;
        assert(num / d == w && num % d == 0) by (nonlinear_arith)
            requires
                num == v * den,
                v == w * t,
                d == den * t,
                den > 0,
                t > 0,
        ;
        assert(d > 0) by (nonlinear_arith)
            requires
                d == den * t,
                den > 0,
                t > 0,
        ;
    } else {
        assert(two_to(0) == 1);
        lemma_two_positive((-e) as nat);
        let t = two_to((-e) as nat);
        let n = scaled_num(num, e);
        let d = scaled_den(den, e);
        if e == 0 {
            assert(d == den) by (nonlinear_arith)
                requires
                    d == den * 1,
            ;
            assert(v * t == v) by (nonlinear_arith)
                requires
                    t == 1,
            ;
        } else {
            assert(n == (v * t) * den) by (nonlinear_arith)
                requires
                    n == num * t,
                    num == v * den,
            ;
        }
        assert(n / d == v * t && n % d == 0) by (nonlinear_arith)
            requires
                n == (v * t) * d,
                d > 0,
        ;
    }
}

proof fn lemma_parity(n: nat, m: nat, x: nat)
    requires
        n * m == 2 * x,
    ensures
        n % 2 == 0 || m % 2 == 0,
{
    if n % 2 == 1 && m % 2 == 1 {
        let a = n / 2;
        let b = m / 2;
        assert(n * m == 2 * (2 * (a * b) + a + b) + 1) by (nonlinear_arith)
            requires
                n == 2 * a + 1,
                m == 2 * b + 1,
        ;
    }
}

/// A factor of a number that is exact is exact.
proof fn lemma_factor_exact(n: nat, m: nat, q: nat, k: nat)
    requires
        m > 0,
        n * m == held(q, k),
        q < two_to(53),
    ensures
        is_exact(n),
    decreases k,
{
    if k == 0 {
        assert(two_to(0) == 1);
        assert(n <= q && n == n * 1) by (nonlinear_arith)
            requires
                n * m == q * 1,
                m > 0,
        ;
        assert(n == held(n, 0));
    } else {
        let x = held(q, (k - 1) as nat);
        let t = two_to((k - 1) as nat);
        assert(q * (2 * t) == 2 * (q * t)) by (nonlinear_arith);
        lemma_parity(n, m, x);
        if m % 2 == 0 {
            let h = m / 2;
            assert(n * h == x) by (nonlinear_arith)
                requires
                    n * m == 2 * x,
                    m == 2 * h,
            ;
            lemma_factor_exact(n, h, q, (k - 1) as nat);
        } else {
            let h = n / 2;
            assert(h * m == x) by (nonlinear_arith)
                requires
                    n * m == 2 * x,
                    n == 2 * h,
            ;
            lemma_factor_exact(h, m, q, (k - 1) as nat);
            let (p, j) = choose|p: nat, j: nat| p < two_to(53) && h == #[trigger] held(p, j);
            let u = two_to(j);
            assert(two_to(j + 1) == 2 * u);
            assert(p * (2 * u) == 2 * (p * u)) by (nonlinear_arith);
            assert(n == held(p, j + 1));
        }
    }
}

/// Whole numbers whose product is exact are multiplied exactly.
pub proof fn lemma_scaled_exact(n: nat, m: nat)
    requires
        n > 0,
        m > 0,
        n * m <= u64::MAX,
        is_exact(n * m),
    ensures
        scaled(n, 1, m) == n * m,
{
    assert(n * m > 0) by (nonlinear_arith)
        requires
            n > 0,
            m > 0,
    ;
    let (q, k) = choose|q: nat, k: nat| q < two_to(53) && n * m == #[trigger] held(q, k);
    lemma_factor_exact(n, m, q, k);
    lemma_nearest_exact(n, 1, n);
    let f = nearest(n, 1);
    let num = f.num() * m;
    assert(num == (n * m) * f.den()) by (nonlinear_arith)
        requires
            num == f.num() * m,
            f.num() == n * f.den(),
    ;
    lemma_nearest_exact(num, f.den(), n * m);
    let g = nearest(num, f.den());
    assert(g.num() / g.den() == n * m) by (nonlinear_arith)
        requires
            g.num() == (n * m) * g.den(),
            g.den() > 0,
    ;
}

/// The floating-point number nearest to `num / den` has 53 bits, the last of them
/// worth two to its exponent, and is off by no more than half of what that bit is
/// worth. Where it is off by exactly half, its significand is even.
pub proof fn lemma_nearest_is(num: nat, den: nat)
    requires
        num > 0,
        den > 0,
    ensures
        ({
            let f = nearest(num, den);
            let n = scaled_num(num, f.exponent);
            let d = scaled_den(den, f.exponent);
            let off = f.significand * d - n;
            &&& d > 0
            &&& 0x10_0000_0000_0000 * d <= n < 0x20_0000_0000_0000 * d
            &&& -d <= 2 * off <= d
            &&& 2 * off == d || 2 * off == -d ==> f.significand % 2 == 0
        }),
{
    lemma_two_constants();
    lemma_last_bit(num, den);
    let e = last_bit(num, den);
    lemma_scaled_positive(num, den, e);
    lemma_half_even_is(scaled_num(num, e), scaled_den(den, e));
}

proof fn lemma_half_even_is(n: nat, d: nat)
    requires
        d > 0,
    ensures
        ({
            let off = half_even(n, d) * d - n;
            &&& -d <= 2 * off <= d
            &&& 2 * off == d || 2 * off == -d ==> half_even(n, d) % 2 == 0
        }),
{
    let q = n / d;
    let r = n % d;
    assert(n == q * d + r && 0 <= r < d) by (nonlinear_arith)
        requires
            d > 0,
            q == n / d,
            r == n % d,
    ;
    assert((q + 1) * d == q * d + d) by (nonlinear_arith);
}

/// What is read off a floating-point number is its whole part, and no more than fits.
pub proof fn lemma_read_off(f: Float)
    ensures
        f.den() > 0,
        whole_part(f) * f.den() <= f.num() < (whole_part(f) + 1) * f.den(),
        saturated(whole_part(f)) <= u64::MAX,
        whole_part(f) <= u64::MAX ==> saturated(whole_part(f)) == whole_part(f),
{
    if f.exponent < 0 {
        lemma_two_positive((-f.exponent) as nat);
    }
    let n = f.num();
    let d = f.den();
    let w = whole_part(f);
    assert(w * d <= n < (w + 1) * d) by (nonlinear_arith)
        requires
            d > 0,
            w == n / d,
    ;
}

} // verus!
