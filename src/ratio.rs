use vstd::arithmetic::div_mod::{lemma_fundamental_div_mod, lemma_mod_pos_bound};
use vstd::prelude::*;

verus! {

/// A non-negative fraction `num / den`.
#[derive(Clone, Copy, Debug, PartialEq, Eq, Structural)]
pub struct Ratio {
    pub num: u128,
    pub den: u128,
}

impl Ratio {
    /// The fraction as a pair of mathematical integers.
    pub open spec fn view(self) -> (int, int) {
        (self.num as int, self.den as int)
    }
}

/// `a < b` for fractions with positive denominators.
pub open spec fn frac_lt(a: (int, int), b: (int, int)) -> bool {
    a.0 * b.1 < b.0 * a.1
}

proof fn lemma_quotient_decides(p: int, q: int, kp: int, rp: int, s: int, t: int, ks: int, rs: int)
    requires
        q > 0,
        t > 0,
        p == q * kp + rp,
        s == t * ks + rs,
        0 <= rp < q,
        0 <= rs < t,
        0 <= kp,
        0 <= ks,
    ensures
        kp < ks ==> p * t < s * q,
        ks < kp ==> s * q < p * t,
        kp == ks ==> p * t - s * q == rp * t - rs * q,
{
    assert(p * t - s * q == (rp * t - rs * q) + (kp - ks) * q * t) by (nonlinear_arith)
        requires
            p == kp * q + rp,
            s == ks * t + rs,
    ;
    if kp == ks {
        assert((kp - ks) * q * t == 0) by (nonlinear_arith)
            requires
                kp == ks,
        ;
    }
    if kp < ks {
        assert(rp * t < q * t) by (nonlinear_arith)
            requires
                rp < q,
                t > 0,
        ;
        assert((kp - ks) * q * t <= -(q * t)) by (nonlinear_arith)
            requires
                kp - ks <= -1,
                q > 0,
                t > 0,
        ;
        assert(rs * q >= 0) by (nonlinear_arith)
            requires
                rs >= 0,
                q > 0,
        ;
    }
    if ks < kp {
        assert(rs * q < t * q) by (nonlinear_arith)
            requires
                rs < t,
                q > 0,
        ;
        assert((kp - ks) * q * t >= q * t) by (nonlinear_arith)
            requires
                kp - ks >= 1,
                q > 0,
                t > 0,
        ;
        assert(rp * t >= 0) by (nonlinear_arith)
            requires
                rp >= 0,
                t > 0,
        ;
    }
}

/// Decides `a < b` exactly, by comparing whole parts and then the
/// reciprocals of the remainders, so no product is ever formed.
pub fn less_than(a: &Ratio, b: &Ratio) -> (r: bool)
    requires
        a.den > 0,
        b.den > 0,
    ensures
        r == frac_lt(a@, b@),
{
    let mut p: u128 = a.num;
    let mut q: u128 = a.den;
    let mut s: u128 = b.num;
    let mut t: u128 = b.den;
    loop
        invariant
            q > 0,
            t > 0,
            (p * t < s * q) == frac_lt(a@, b@),
        decreases q + t,
    {
        let kp = p / q;
        let rp = p % q;
        let ks = s / t;
        let rs = s % t;
        proof {
            lemma_fundamental_div_mod(p as int, q as int);
            lemma_fundamental_div_mod(s as int, t as int);
            lemma_mod_pos_bound(p as int, q as int);
            lemma_mod_pos_bound(s as int, t as int);
            lemma_quotient_decides(p as int, q as int, kp as int, rp as int, s as int, t as int, ks as int, rs as int);
        }
        if kp != ks {
            return kp < ks;
        }
        if rp == 0 {
            assert(rp * t == 0) by (nonlinear_arith)
                requires
                    rp == 0,
            ;
            assert(p * t - s * q == rp * t - rs * q);
            assert(rs * q >= 0) by (nonlinear_arith)
                requires
                    rs >= 0,
                    q > 0,
            ;
            assert(rs > 0 ==> rs * q > 0) by (nonlinear_arith)
                requires
                    q > 0,
            ;
            assert(rs == 0 ==> rs * q == 0) by (nonlinear_arith);
            return rs != 0;
        }
        if rs == 0 {
            assert(rs * q == 0) by (nonlinear_arith)
                requires
                    rs == 0,
            ;
            assert(p * t - s * q == rp * t - rs * q);
            assert(rp * t > 0) by (nonlinear_arith)
                requires
                    rp > 0,
                    t > 0,
            ;
            return false;
        }
        assert(t * rp == rp * t && q * rs == rs * q) by (nonlinear_arith);
        let old_q = q;
        p = t;
        q = rs;
        s = old_q;
        t = rp;
    }
}

} // verus!
