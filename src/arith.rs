//! Rounding and powers of two.
use vstd::arithmetic::div_mod::{lemma_fundamental_div_mod, lemma_mod_multiples_basic};
use vstd::prelude::*;

verus! {

/// The smallest multiple of `a` that is at least `c` (for `a >= 1`).
pub open spec fn round_up(c: nat, a: nat) -> nat {
    if a == 0 || c % a == 0 {
        c
    } else {
        (c + (a - c % a)) as nat
    }
}

/// `a` is 1, 2, 4, 8, ...
pub open spec fn is_pow2(a: nat) -> bool
    decreases a,
{
    if a == 1 {
        true
    } else if a < 2 || a % 2 != 0 {
        false
    } else {
        is_pow2(a / 2)
    }
}

pub proof fn lemma_round_up_bounds(c: nat, a: nat)
    requires
        a >= 1,
    ensures
        c <= round_up(c, a),
        round_up(c, a) < c + a,
        round_up(c, a) % a == 0,
{
    lemma_fundamental_div_mod(c as int, a as int);
    if c % a != 0 {
        let q = c / a;
        assert(round_up(c, a) == a * (q + 1)) by (nonlinear_arith)
            requires
                c == a * q + c % a,
                round_up(c, a) == c + (a - c % a),
        ;
        lemma_mod_multiples_basic((q + 1) as int, a as int);
        assert((q + 1) * a == a * (q + 1)) by (nonlinear_arith);
    }
}

pub proof fn lemma_round_up_monotone(c1: nat, c2: nat, a: nat)
    requires
        a >= 1,
        c1 <= c2,
    ensures
        round_up(c1, a) <= round_up(c2, a),
{
    lemma_round_up_bounds(c1, a);
    lemma_round_up_bounds(c2, a);
    lemma_fundamental_div_mod(round_up(c1, a) as int, a as int);
    lemma_fundamental_div_mod(round_up(c2, a) as int, a as int);
    let r1 = round_up(c1, a);
    let r2 = round_up(c2, a);
    let k1 = r1 / a;
    let k2 = r2 / a;
    // both are multiples of `a`; r1 < c1 + a <= r2 + a, so k1 < k2 + 1
    assert(k1 <= k2) by (nonlinear_arith)
        requires
            r1 == a * k1,
            r2 == a * k2,
            r1 < r2 + a,
            a >= 1,
    ;
    assert(r1 <= r2) by (nonlinear_arith)
        requires
            r1 == a * k1,
            r2 == a * k2,
            k1 <= k2,
            a >= 1,
    ;
}

pub proof fn lemma_pow2_positive(a: nat)
    requires
        is_pow2(a),
    ensures
        a >= 1,
{
}

/// Of two powers of two, the smaller divides the larger.
pub proof fn lemma_pow2_divides(a: nat, b: nat)
    requires
        is_pow2(a),
        is_pow2(b),
        a <= b,
    ensures
        b % a == 0,
    decreases b,
{
    if a == 1 {
    } else {
        assert(b >= 2);
        lemma_pow2_divides((a / 2) as nat, (b / 2) as nat);
        lemma_fundamental_div_mod(a as int, 2);
        lemma_fundamental_div_mod(b as int, 2);
        lemma_fundamental_div_mod((b / 2) as int, (a / 2) as int);
        let k = (b / 2) / (a / 2);
        assert(b == a * k) by (nonlinear_arith)
            requires
                b == 2 * (b / 2),
                a == 2 * (a / 2),
                b / 2 == (a / 2) * k,
        ;
        lemma_mod_multiples_basic(k as int, a as int);
        assert(k * a == a * k) by (nonlinear_arith);
    }
}

/// Divisibility is transitive.
pub proof fn lemma_divides_trans(a: nat, b: nat, c: nat)
    requires
        a >= 1,
        b >= 1,
        b % a == 0,
        c % b == 0,
    ensures
        c % a == 0,
{
    lemma_fundamental_div_mod(b as int, a as int);
    lemma_fundamental_div_mod(c as int, b as int);
    let m = b / a;
    let k = c / b;
    assert(c == (m * k) * a) by (nonlinear_arith)
        requires
            b == a * m,
            c == b * k,
    ;
    lemma_mod_multiples_basic((m * k) as int, a as int);
}

/// A sum of two multiples of `d` is a multiple of `d`.
pub proof fn lemma_divides_add(d: nat, x: nat, y: nat)
    requires
        d >= 1,
        x % d == 0,
        y % d == 0,
    ensures
        (x + y) % d == 0,
{
    lemma_fundamental_div_mod(x as int, d as int);
    lemma_fundamental_div_mod(y as int, d as int);
    let p = x / d;
    let q = y / d;
    assert(x + y == (p + q) * d) by (nonlinear_arith)
        requires
            x == d * p,
            y == d * q,
    ;
    lemma_mod_multiples_basic((p + q) as int, d as int);
}

} // verus!
