use vstd::prelude::*;
use vstd::arithmetic::div_mod::{lemma_fundamental_div_mod, lemma_fundamental_div_mod_converse, lemma_mod_pos_bound};

verus! {

/// Floor division of `a` by a positive `b` (the quotient rounded toward
/// negative infinity).
pub fn floor_div(a: i128, b: i128) -> (r: i128)
    requires
        b > 0,
        a > i128::MIN,
    ensures
        r == a / b,
{
    let bu = b as u128;
    if a >= 0 {
        let q = (a as u128) / bu;
        proof {
            lemma_fundamental_div_mod(a as int, b as int);
            lemma_mod_pos_bound(a as int, b as int);
            assert(q as int == (a as int) / (b as int));
        }
        q as i128
    } else {
        let m = (-a) as u128;
        let q = (m - 1) / bu + 1;
        proof {
            let mi = m as int;
            let bi = b as int;
            let qq = (mi - 1) / bi;
            let rr = (mi - 1) % bi;
            lemma_fundamental_div_mod(mi - 1, bi);
            lemma_mod_pos_bound(mi - 1, bi);
            assert(mi - 1 == bi * qq + rr);
            // a = -m = -(b*qq + rr + 1) = (-(qq+1)) * b + (b - rr - 1)
            assert(a as int == (-(qq + 1)) * bi + (bi - rr - 1)) by (nonlinear_arith)
                requires
                    a as int == -mi,
                    mi - 1 == bi * qq + rr,
            ;
            lemma_fundamental_div_mod_converse(a as int, bi, -(qq + 1), bi - rr - 1);
            assert(qq >= 0) by (nonlinear_arith)
                requires
                    mi - 1 == bi * qq + rr,
                    0 <= rr < bi,
                    mi >= 1,
            ;
            assert(qq <= mi) by (nonlinear_arith)
                requires
                    mi - 1 == bi * qq + rr,
                    0 <= rr,
                    bi >= 1,
                    qq >= 0,
            ;
        }
        -(q as i128)
    }
}

} // verus!
