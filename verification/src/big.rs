//! Natural numbers of any size.

use vstd::prelude::*;

verus! {

/// The number of values of one limb.
pub open spec fn limb_base() -> nat {
    0x1_0000_0000
}

/// The weight of the limb at index `i`.
pub open spec fn weight(i: nat) -> nat
    decreases i,
{
    if i == 0 {
        1
    } else {
        limb_base() * weight((i - 1) as nat)
    }
}

/// The number that the limbs `s` make up, the least of them first.
pub open spec fn value(s: Seq<u32>) -> nat
    decreases s.len(),
{
    if s.len() == 0 {
        0
    } else {
        value(s.drop_last()) + s.last() as nat * weight((s.len() - 1) as nat)
    }
}

proof fn lemma_value_bound(s: Seq<u32>)
    ensures
        value(s) < weight(s.len()),
    decreases s.len(),
{
    if s.len() > 0 {
        let w = weight((s.len() - 1) as nat);
        lemma_value_bound(s.drop_last());
        let l = s.last() as nat;
        assert(l * w <= (limb_base() - 1) * w) by (nonlinear_arith)
            requires
                l <= limb_base() - 1,
                w >= 0,
        ;
        assert(limb_base() * w == (limb_base() - 1) * w + w) by (nonlinear_arith);
    }
}

/// The limb at index `i`, zero behind the last one.
pub open spec fn limb(s: Seq<u32>, i: int) -> nat {
    if 0 <= i < s.len() {
        s[i] as nat
    } else {
        0
    }
}

/// The number that the first `n` limbs make up.
pub open spec fn low(s: Seq<u32>, n: nat) -> nat
    decreases n,
{
    if n == 0 {
        0
    } else {
        low(s, (n - 1) as nat) + limb(s, n - 1) * weight((n - 1) as nat)
    }
}

proof fn lemma_low_is_value(s: Seq<u32>, n: nat)
    ensures
        n <= s.len() ==> low(s, n) == value(s.take(n as int)),
        n >= s.len() ==> low(s, n) == value(s),
    decreases n,
{
    if n > 0 {
        lemma_low_is_value(s, (n - 1) as nat);
        if n <= s.len() {
            assert(s.take(n as int).drop_last() =~= s.take(n - 1));
        } else {
            assert(0 * weight((n - 1) as nat) == 0);
        }
        if n == s.len() {
            assert(s.take(n as int) =~= s);
        }
    } else {
        assert(s.take(0) =~= Seq::<u32>::empty());
        if s.len() == 0 {
            assert(s =~= Seq::<u32>::empty());
        }
    }
}

proof fn lemma_value_push(s: Seq<u32>, l: u32)
    ensures
        value(s.push(l)) == value(s) + l as nat * weight(s.len()),
{
    assert(s.push(l).drop_last() =~= s);
}

/// A natural number.
#[derive(Debug)]
pub struct Big {
    limbs: Vec<u32>,
}

impl View for Big {
    type V = nat;

    closed spec fn view(&self) -> nat {
        value(self.limbs@)
    }
}

proof fn lemma_digit_step(out: nat, low_v: nat, carry: nat, l: nat, m: nat, a: nat, w: nat, t: nat, lo: nat, hi: nat)
    requires
        out + carry * w == low_v * m + a,
        t == l * m + carry,
        t == hi * limb_base() + lo,
    ensures
        (out + lo * w) + hi * (limb_base() * w) == (low_v + l * w) * m + a,
{
    assert(lo * w + hi * (limb_base() * w) == t * w) by (nonlinear_arith)
        requires
            t == hi * limb_base() + lo,
    ;
    assert(t * w == l * m * w + carry * w) by (nonlinear_arith)
        requires
            t == l * m + carry,
    ;
    assert((low_v + l * w) * m == low_v * m + l * m * w) by (nonlinear_arith);
}

impl Big {
    /// Zero.
    pub fn zero() -> (r: Self)
        ensures
            r@ == 0,
    {
        Big { limbs: Vec::new() }
    }

    /// One.
    pub fn one() -> (r: Self)
        ensures
            r@ == 1,
    {
        let mut limbs: Vec<u32> = Vec::new();
        limbs.push(1);
        proof {
            assert(limbs@ =~= Seq::<u32>::empty().push(1));
            lemma_value_push(Seq::empty(), 1);
            assert(weight(0) == 1);
        }
        Big { limbs }
    }

    /// `m` times the number, plus `a`.
    pub fn times_plus(&self, m: u32, a: u32) -> (r: Self)
        ensures
            r@ == self@ * m + a,
    {
        let n: usize = self.limbs.len();
        let mut out: Vec<u32> = Vec::new();
        let mut carry: u64 = a as u64;
        let mut i: usize = 0;
        assert(low(self.limbs@, 0) * m as nat == 0) by (nonlinear_arith)
            requires
                low(self.limbs@, 0) == 0,
        ;
        assert(carry as nat * weight(0) == carry as nat) by (nonlinear_arith)
            requires
                weight(0) == 1,
        ;
        while i < n
            invariant
                n == self.limbs.len(),
                i <= n,
                out.len() == i,
                carry < limb_base(),
                value(out@) + carry as nat * weight(i as nat) == low(self.limbs@, i as nat) * m as nat
                    + a as nat,
            decreases n - i,
        {
            let l: u32 = self.limbs[i];
            assert(l as nat * m as nat <= 0xffff_ffff * 0xffff_ffff) by (nonlinear_arith)
                requires
                    l <= 0xffff_ffff,
                    m <= 0xffff_ffff,
            ;
            let t: u64 = (l as u64) * (m as u64) + carry;
            let lo: u32 = (t % 0x1_0000_0000) as u32;
            let hi: u64 = t / 0x1_0000_0000;
            proof {
                lemma_digit_step(
                    value(out@),
                    low(self.limbs@, i as nat),
                    carry as nat,
                    l as nat,
                    m as nat,
                    a as nat,
                    weight(i as nat),
                    t as nat,
                    lo as nat,
                    hi as nat,
                );
                lemma_value_push(out@, lo);
            }
            out.push(lo);
            carry = hi;
            i = i + 1;
        }
        proof {
            lemma_low_is_value(self.limbs@, n as nat);
            lemma_value_push(out@, carry as u32);
        }
        if carry != 0 {
            out.push(carry as u32);
        } else {
            assert(0 * weight(n as nat) == 0);
        }
        Big { limbs: out }
    }

    /// What is left of the number without `other`, where that is not more.
    pub fn minus(&self, other: &Big) -> (r: Option<Self>)
        ensures
            r is Some <==> self@ >= other@,
            r matches Some(d) ==> d@ == self@ - other@,
    {
        let n: usize = if self.limbs.len() >= other.limbs.len() {
            self.limbs.len()
        } else {
            other.limbs.len()
        };
        let mut out: Vec<u32> = Vec::new();
        let mut borrow: u64 = 0;
        let mut i: usize = 0;
        while i < n
            invariant
                i <= n,
                out.len() == i,
                borrow <= 1,
                value(out@) + low(other.limbs@, i as nat) == low(self.limbs@, i as nat) + borrow as nat
                    * weight(i as nat),
            decreases n - i,
        {
            let x: u64 = if i < self.limbs.len() {
                self.limbs[i] as u64
            } else {
                0
            };
            let y: u64 = if i < other.limbs.len() {
                other.limbs[i] as u64
            } else {
                0
            };
            let short = x < y + borrow;
            let d: u64 = if short {
                x + 0x1_0000_0000 - y - borrow
            } else {
                x - y - borrow
            };
            let ghost w = weight(i as nat);
            let ghost b = borrow as nat;
            let ghost b2: nat = if short {
                1
            } else {
                0
            };
            proof {
                assert(d + y + b == x + b2 * limb_base());
                assert(d as nat * w + y as nat * w + b * w == x as nat * w + b2 * (limb_base() * w))
                    by (nonlinear_arith)
                    requires
                        d as nat + y as nat + b == x as nat + b2 * limb_base(),
                ;
                lemma_value_push(out@, d as u32);
            }
            out.push(d as u32);
            borrow = if short {
                1
            } else {
                0
            };
            i = i + 1;
        }
        proof {
            lemma_low_is_value(self.limbs@, n as nat);
            lemma_low_is_value(other.limbs@, n as nat);
            lemma_value_bound(out@);
        }
        if borrow == 0 {
            Some(Big { limbs: out })
        } else {
            None
        }
    }

    /// Whether the number is zero.
    pub fn is_zero(&self) -> (b: bool)
        ensures
            b == (self@ == 0),
    {
        let mut i: usize = 0;
        while i < self.limbs.len()
            invariant
                i <= self.limbs.len(),
                value(self.limbs@.take(i as int)) == 0,
            decreases self.limbs.len() - i,
        {
            proof {
                assert(self.limbs@.take(i + 1).drop_last() =~= self.limbs@.take(i as int));
            }
            if self.limbs[i] != 0 {
                proof {
                    let s = self.limbs@;
                    lemma_weight_positive(i as nat);
                    let l = s[i as int] as nat;
                    let w = weight(i as nat);
                    assert(l * w >= 1) by (nonlinear_arith)
                        requires
                            l >= 1,
                            w >= 1,
                    ;
                    assert(value(s.take(i + 1)) == l * w);
                    lemma_value_take(s, i + 1);
                }
                return false;
            }
            i = i + 1;
        }
        assert(self.limbs@.take(i as int) =~= self.limbs@);
        true
    }
}

proof fn lemma_weight_positive(i: nat)
    ensures
        weight(i) >= 1,
    decreases i,
{
    if i > 0 {
        lemma_weight_positive((i - 1) as nat);
    }
}

proof fn lemma_value_take(s: Seq<u32>, k: int)
    requires
        0 <= k <= s.len(),
    ensures
        value(s.take(k)) <= value(s),
    decreases s.len(),
{
    if k == s.len() {
        assert(s.take(k) =~= s);
    } else {
        lemma_value_take(s.drop_last(), k);
        assert(s.drop_last().take(k) =~= s.take(k));
    }
}

} // verus!
