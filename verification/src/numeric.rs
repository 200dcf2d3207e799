//! Integer pieces of the orbit search: p-adic valuations, which weight the
//! multi-scale differences of the solver.
use vstd::prelude::*;

verus! {

/// `p` to the power `v`.
pub open spec fn pow_nat(p: nat, v: nat) -> nat
    decreases v,
{
    if v == 0 {
        1
    } else {
        p * pow_nat(p, (v - 1) as nat)
    }
}

/// The exponent of the highest power of `p` that divides `d > 0`.
pub open spec fn valuation(d: nat, p: nat) -> nat
    decreases d,
{
    if d == 0 || p < 2 || d % p != 0 {
        0
    } else {
        proof {
            assert(d / p < d) by (nonlinear_arith)
                requires
                    p >= 2,
                    d > 0,
            ;
        }
        1 + valuation(d / p, p)
    }
}

proof fn lemma_valuation_divides(d: nat, p: nat)
    requires
        d > 0,
        p >= 2,
    ensures
        d % pow_nat(p, valuation(d, p)) == 0,
        d % pow_nat(p, valuation(d, p) + 1) != 0,
        pow_nat(p, valuation(d, p)) > 0,
    decreases d,
{
    let v = valuation(d, p);
    reveal_with_fuel(pow_nat, 2);
    lemma_pow_positive(p, v + 1);
    if d % p != 0 {
        assert(pow_nat(p, 1) == p);
    } else {
        let e = d / p;
        assert(d == p * e) by (nonlinear_arith)
            requires
                d % p == 0,
                p > 0,
                e == d / p,
        ;
        assert(e > 0) by (nonlinear_arith)
            requires
                d == p * e,
                d > 0,
        ;
        lemma_valuation_divides(e, p);
        let w = valuation(e, p);
        lemma_pow_positive(p, w + 1);
        let q = pow_nat(p, w);
        assert(v == w + 1);
        assert(pow_nat(p, v) == p * q);
        assert(pow_nat(p, v + 1) == p * pow_nat(p, w + 1));
        let q1 = pow_nat(p, w + 1);
        assert(d % (p * q) == 0) by (nonlinear_arith)
            requires
                d == p * e,
                e % q == 0,
                q > 0,
                p > 0,
        {
            let k = e / q;
            assert(e == q * k);
            assert(d == (p * q) * k);
            vstd::arithmetic::div_mod::lemma_mod_multiples_basic(k as int, (p * q) as int);
        }
        assert(d % (p * q1) != 0) by (nonlinear_arith)
            requires
                d == p * e,
                e % q1 != 0,
                q1 > 0,
                p > 0,
        {
            if d % (p * q1) == 0 {
                let k = d / (p * q1);
                assert(d == (p * q1) * k);
                assert(e == q1 * k);
                vstd::arithmetic::div_mod::lemma_mod_multiples_basic(k as int, q1 as int);
            }
        }
        assert(p * q > 0) by (nonlinear_arith)
            requires
                p > 0,
                q > 0,
        ;
    }
}

/// `|a - b|`.
pub open spec fn abs_diff(a: u64, b: u64) -> nat {
    if a > b {
        (a - b) as nat
    } else {
        (b - a) as nat
    }
}

/// The p-adic valuation of `|a - b|`: the exponent of the highest power of
/// `p` that divides it. The p-adic distance of `a` and `b` is `p` to the
/// minus this power.
pub fn p_adic_valuation(a: u64, b: u64, p: u64) -> (r: u32)
    requires
        p >= 2,
        a != b,
    ensures
        r == valuation(abs_diff(a, b), p as nat),
        abs_diff(a, b) % pow_nat(p as nat, r as nat) == 0,
        abs_diff(a, b) % pow_nat(p as nat, r as nat + 1) != 0,
{
    let d0: u64 = if a > b {
        a - b
    } else {
        b - a
    };
    proof {
        lemma_valuation_divides(d0 as nat, p as nat);
    }
    let mut diff: u64 = d0;
    let mut vp: u32 = 0;
    assert(pow_nat(p as nat, 0) == 1);
    while diff % p == 0
        invariant
            p >= 2,
            diff > 0,
            vp <= 64,
            vp + valuation(diff as nat, p as nat) == valuation(d0 as nat, p as nat),
            pow_nat(p as nat, vp as nat) * diff == d0,
        decreases diff,
    {
        let ghost old_diff = diff;
        assert(diff / p < diff) by (nonlinear_arith)
            requires
                p >= 2,
                diff > 0,
        ;
        assert(diff == p * (diff / p)) by (nonlinear_arith)
            requires
                diff % p == 0,
                p > 0,
        ;
        assert(pow_nat(p as nat, (vp + 1) as nat) * (diff / p) == d0) by (nonlinear_arith)
            requires
                pow_nat(p as nat, (vp + 1) as nat) == p * pow_nat(p as nat, vp as nat),
                pow_nat(p as nat, vp as nat) * diff == d0,
                diff == p * (diff / p),
        ;
        assert(pow_nat(p as nat, (vp + 1) as nat) >= pow_nat(2, (vp + 1) as nat)) by {
            lemma_pow_monotone_base(2, p as nat, (vp + 1) as nat);
        }
        assert(diff / p > 0) by (nonlinear_arith)
            requires
                diff == p * (diff / p),
                diff > 0,
        ;
        assert(pow_nat(p as nat, (vp + 1) as nat) <= d0) by (nonlinear_arith)
            requires
                pow_nat(p as nat, (vp + 1) as nat) * (diff / p) == d0,
                diff / p > 0,
        ;
        proof {
            lemma_pow2_bound((vp + 1) as nat);
        }
        diff = diff / p;
        vp = vp + 1;
    }
    vp
}

proof fn lemma_pow_positive(p: nat, v: nat)
    requires
        p > 0,
    ensures
        pow_nat(p, v) > 0,
    decreases v,
{
    if v > 0 {
        lemma_pow_positive(p, (v - 1) as nat);
        let x = pow_nat(p, (v - 1) as nat);
        assert(p * x > 0) by (nonlinear_arith)
            requires
                p > 0,
                x > 0,
        ;
    }
}

proof fn lemma_pow_monotone_base(a: nat, b: nat, v: nat)
    requires
        a <= b,
    ensures
        pow_nat(a, v) <= pow_nat(b, v),
    decreases v,
{
    if v > 0 {
        lemma_pow_monotone_base(a, b, (v - 1) as nat);
        let x = pow_nat(a, (v - 1) as nat);
        let y = pow_nat(b, (v - 1) as nat);
        assert(a * x <= b * y) by (nonlinear_arith)
            requires
                a <= b,
                x <= y,
        ;
    }
}

proof fn lemma_pow_nat_is_pow2(v: nat)
    ensures
        pow_nat(2, v) == vstd::arithmetic::power2::pow2(v),
    decreases v,
{
    if v > 0 {
        lemma_pow_nat_is_pow2((v - 1) as nat);
        vstd::arithmetic::power2::lemma_pow2_unfold(v);
    } else {
        vstd::arithmetic::power2::lemma2_to64();
    }
}

proof fn lemma_pow2_bound(v: nat)
    ensures
        v > 64 ==> pow_nat(2, v) > u64::MAX,
    decreases v,
{
    if v > 64 {
        lemma_pow2_bound((v - 1) as nat);
        if v == 65 {
            lemma_pow_nat_is_pow2(64);
            vstd::arithmetic::power2::lemma2_to64_rest();
            assert(pow_nat(2, 65) == 2 * pow_nat(2, 64));
        }
    }
}

} // verus!
