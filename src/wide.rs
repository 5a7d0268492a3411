use vstd::prelude::*;
use vstd::arithmetic::div_mod::{lemma_fundamental_div_mod, lemma_mod_bound};

verus! {

/// `2^64`.
pub open spec fn half() -> int {
    0x1_0000_0000_0000_0000
}

/// `2^128`.
pub open spec fn full() -> int {
    half() * half()
}

/// A non-negative integer below `2^256`, as two 128-bit digits.
#[derive(Clone, Copy, Debug)]
pub struct Wide {
    pub hi: u128,
    pub lo: u128,
}

pub open spec fn wide_value(w: Wide) -> int {
    w.hi * full() + w.lo
}

proof fn lemma_split(x: int)
    requires
        0 <= x < full(),
    ensures
        x == (x / half()) * half() + x % half(),
        0 <= x % half() < half(),
        0 <= x / half() < half(),
{
    lemma_fundamental_div_mod(x, half());
    lemma_mod_bound(x, half());
    assert(x / half() < half()) by (nonlinear_arith)
        requires
            x == half() * (x / half()) + x % half(),
            0 <= x % half(),
            x < full(),
            full() == half() * half(),
            half() > 0,
    ;
    assert(x / half() >= 0) by (nonlinear_arith)
        requires
            x == half() * (x / half()) + x % half(),
            x % half() < half(),
            x >= 0,
            half() > 0,
    ;
}

/// The full product of two 128-bit numbers.
pub fn wide_mul(a: u128, b: u128) -> (r: Wide)
    ensures
        wide_value(r) == a * b,
{
    let a1 = a / 0x1_0000_0000_0000_0000;
    let a0 = a % 0x1_0000_0000_0000_0000;
    let b1 = b / 0x1_0000_0000_0000_0000;
    let b0 = b % 0x1_0000_0000_0000_0000;
    proof {
        lemma_split(a as int);
        lemma_split(b as int);
        let (ai1, ai0, bi1, bi0) = (a1 as int, a0 as int, b1 as int, b0 as int);
        assert(ai0 * bi0 < full() && ai0 * bi1 < full() && ai1 * bi0 < full() && ai1 * bi1 < full()) by (nonlinear_arith)
            requires
                0 <= ai0 < half(),
                0 <= ai1 < half(),
                0 <= bi0 < half(),
                0 <= bi1 < half(),
                full() == half() * half(),
        ;
        assert(ai0 * bi0 >= 0 && ai0 * bi1 >= 0 && ai1 * bi0 >= 0 && ai1 * bi1 >= 0) by (nonlinear_arith)
            requires
                ai0 >= 0,
                ai1 >= 0,
                bi0 >= 0,
                bi1 >= 0,
        ;
    }
    let p00 = a0 * b0;
    let p01 = a0 * b1;
    let p10 = a1 * b0;
    let p11 = a1 * b1;
    proof {
        lemma_split(p00 as int);
        lemma_split(p01 as int);
        lemma_split(p10 as int);
    }
    let t = p00 / 0x1_0000_0000_0000_0000 + p01 % 0x1_0000_0000_0000_0000 + p10 % 0x1_0000_0000_0000_0000;
    proof {
        lemma_split(t as int);
        let (x00, x01, x10, x11, ti) = (p00 as int, p01 as int, p10 as int, p11 as int, t as int);
        let (ai, bi) = (a as int, b as int);
        assert(ai * bi == x11 * full() + (x01 + x10) * half() + x00) by (nonlinear_arith)
            requires
                ai == a1 * half() + a0,
                bi == b1 * half() + b0,
                x00 == a0 * b0,
                x01 == a0 * b1,
                x10 == a1 * b0,
                x11 == a1 * b1,
                full() == half() * half(),
        ;
        let h = x11 + x01 / half() + x10 / half() + ti / half();
        let l = (ti % half()) * half() + x00 % half();
        assert(ai * bi == h * full() + l) by (nonlinear_arith)
            requires
                ai * bi == x11 * full() + (x01 + x10) * half() + x00,
                x00 == (x00 / half()) * half() + x00 % half(),
                x01 == (x01 / half()) * half() + x01 % half(),
                x10 == (x10 / half()) * half() + x10 % half(),
                ti == x00 / half() + x01 % half() + x10 % half(),
                ti == (ti / half()) * half() + ti % half(),
                h == x11 + x01 / half() + x10 / half() + ti / half(),
                l == (ti % half()) * half() + x00 % half(),
                full() == half() * half(),
        ;
        assert(0 <= l < full()) by (nonlinear_arith)
            requires
                l == (ti % half()) * half() + x00 % half(),
                0 <= ti % half() < half(),
                0 <= x00 % half() < half(),
                full() == half() * half(),
        ;
        assert(ai * bi < full() * full()) by (nonlinear_arith)
            requires
                0 <= ai < full(),
                0 <= bi < full(),
        ;
        assert(h < full()) by (nonlinear_arith)
            requires
                ai * bi == h * full() + l,
                ai * bi < full() * full(),
                l >= 0,
                full() > 0,
        ;
        assert(x01 / half() + x10 / half() + ti / half() >= 0);
    }
    let hi = p11 + p01 / 0x1_0000_0000_0000_0000 + p10 / 0x1_0000_0000_0000_0000 + t / 0x1_0000_0000_0000_0000;
    let lo = (t % 0x1_0000_0000_0000_0000) * 0x1_0000_0000_0000_0000 + p00 % 0x1_0000_0000_0000_0000;
    Wide { hi, lo }
}

/// The sum of two wide numbers whose sum stays below `2^256`.
pub fn wide_add(x: Wide, y: Wide) -> (r: Wide)
    requires
        wide_value(x) + wide_value(y) < full() * full(),
    ensures
        wide_value(r) == wide_value(x) + wide_value(y),
{
    proof {
        assert(x.hi + y.hi < full()) by (nonlinear_arith)
            requires
                x.hi * full() + x.lo + y.hi * full() + y.lo < full() * full(),
                x.lo >= 0,
                y.lo >= 0,
                full() > 0,
        ;
    }
    if x.lo > u128::MAX - y.lo {
        proof {
            assert(x.hi + y.hi + 1 < full()) by (nonlinear_arith)
                requires
                    x.hi * full() + x.lo + y.hi * full() + y.lo < full() * full(),
                    x.lo + y.lo >= full(),
                    full() > 0,
            ;
        }
        Wide { hi: x.hi + y.hi + 1, lo: x.lo - (u128::MAX - y.lo) - 1 }
    } else {
        Wide { hi: x.hi + y.hi, lo: x.lo + y.lo }
    }
}

/// Whether `x` is larger than `y`.
pub fn wide_gt(x: Wide, y: Wide) -> (r: bool)
    ensures
        r == (wide_value(x) > wide_value(y)),
{
    proof {
        let f = full();
        assert(f == 0x1_0000_0000_0000_0000 * 0x1_0000_0000_0000_0000);
        assert(x.lo < f && y.lo < f);
        assert(x.hi > y.hi ==> x.hi * f + x.lo > y.hi * f + y.lo) by (nonlinear_arith)
            requires
                0 <= x.lo < f,
                0 <= y.lo < f,
        ;
        assert(x.hi < y.hi ==> x.hi * f + x.lo < y.hi * f + y.lo) by (nonlinear_arith)
            requires
                0 <= x.lo < f,
                0 <= y.lo < f,
        ;
    }
    x.hi > y.hi || (x.hi == y.hi && x.lo > y.lo)
}

} // verus!
