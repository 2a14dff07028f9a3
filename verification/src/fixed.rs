//! Fixed-point arithmetic for the decision engine.
//!
//! Every scalar quantity of the engine (resources, probabilities, score
//! channels, table samples) is an `i64` counting millionths of a unit, so
//! `1_000_000` stands for the real value `1.0`.  All helpers here truncate
//! toward zero, are exact integer functions of their arguments, and are
//! proved free of overflow for operands within the engine's caps.

use vstd::prelude::*;

verus! {

/// Number of fixed-point fractions per whole unit.
pub const FX_ONE: i64 = 1_000_000;

/// Half of one unit, used for round-to-nearest.
pub const FX_HALF: i64 = 500_000;

/// Largest magnitude any stored engine quantity may take (one million whole
/// units); sums that would pass it saturate.
pub const FX_STAT_CAP: i64 = 1_000_000_000_000;

/// Largest operand magnitude accepted by the multiplication helpers.
pub const FX_OP_CAP: i64 = 2_000_000_000_000;

/// `e^-1` in fixed point, used to step the exponential decay.
pub const FX_E_INV: i64 = 367_879;

/// Magnitude of an integer.
pub open spec fn fx_abs(a: int) -> int {
    if a >= 0 {
        a
    } else {
        -a
    }
}

/// Truncating fixed-point product: `a * b` scaled back by one unit, with the
/// magnitude computed first so truncation is always toward zero.
pub open spec fn fx_mul_spec(a: int, b: int) -> int {
    if (a >= 0) == (b >= 0) {
        fx_abs(a) * fx_abs(b) / (FX_ONE as int)
    } else {
        -(fx_abs(a) * fx_abs(b) / (FX_ONE as int))
    }
}

/// Truncating fixed-point quotient: `a / b` scaled up by one unit.
pub open spec fn fx_div_spec(a: int, b: int) -> int
    recommends
        b != 0,
{
    if (a >= 0) == (b >= 0) {
        fx_abs(a) * (FX_ONE as int) / fx_abs(b)
    } else {
        -(fx_abs(a) * (FX_ONE as int) / fx_abs(b))
    }
}

/// Round a fixed-point value to the nearest whole number of units, halves
/// away from zero.
pub open spec fn fx_round_spec(a: int) -> int {
    if a >= 0 {
        (a + FX_HALF) / (FX_ONE as int)
    } else {
        -((-a + FX_HALF) / (FX_ONE as int))
    }
}

/// Clamp `v` into `[lo, hi]`.
pub open spec fn clamp_spec(v: int, lo: int, hi: int) -> int {
    if v < lo {
        lo
    } else if v > hi {
        hi
    } else {
        v
    }
}

/// Addition that saturates at the engine's stored-value cap.
pub open spec fn fx_sat_add_spec(a: int, b: int) -> int {
    clamp_spec(a + b, -FX_STAT_CAP as int, FX_STAT_CAP as int)
}

pub fn fx_mul(a: i64, b: i64) -> (r: i64)
    requires
        -FX_OP_CAP <= a <= FX_OP_CAP,
        -FX_OP_CAP <= b <= FX_OP_CAP,
    ensures
        r == fx_mul_spec(a as int, b as int),
        fx_abs(r as int) == fx_abs(a as int) * fx_abs(b as int) / (FX_ONE as int),
{
    let ua: u64 = if a < 0 {
        (-a) as u64
    } else {
        a as u64
    };
    let ub: u64 = if b < 0 {
        (-b) as u64
    } else {
        b as u64
    };
    proof {
        assert(ua as int * ub as int <= FX_OP_CAP as int * FX_OP_CAP as int) by (nonlinear_arith)
            requires
                0 <= ua as int <= FX_OP_CAP as int,
                0 <= ub as int <= FX_OP_CAP as int,
        ;
    }
    let prod: u128 = (ua as u128) * (ub as u128);
    let q: u128 = prod / (FX_ONE as u128);
    proof {
        assert(q <= prod);
        vstd::arithmetic::div_mod::lemma_div_is_ordered(
            prod as int,
            FX_OP_CAP as int * FX_OP_CAP as int,
            FX_ONE as int,
        );
    }
    let m: i64 = q as i64;
    if (a < 0) != (b < 0) {
        -m
    } else {
        m
    }
}

pub fn fx_div(a: i64, b: i64) -> (r: i64)
    requires
        -FX_OP_CAP <= a <= FX_OP_CAP,
        b != 0,
        b != i64::MIN,
    ensures
        r == fx_div_spec(a as int, b as int),
        fx_abs(r as int) == fx_abs(a as int) * (FX_ONE as int) / fx_abs(b as int),
        fx_abs(r as int) <= fx_abs(a as int) * (FX_ONE as int),
{
    let ua: u64 = if a < 0 {
        (-a) as u64
    } else {
        a as u64
    };
    let ub: u64 = if b < 0 {
        (-b) as u64
    } else {
        b as u64
    };
    proof {
        assert(ua as int * FX_ONE as int <= FX_OP_CAP as int * FX_ONE as int)
            by (nonlinear_arith)
            requires
                0 <= ua as int <= FX_OP_CAP as int,
        ;
    }
    let num: u128 = (ua as u128) * (FX_ONE as u128);
    let q: u128 = num / (ub as u128);
    proof {
        assert(num <= FX_OP_CAP as u128 * FX_ONE as u128);
        vstd::arithmetic::div_mod::lemma_div_is_ordered_by_denominator(num as int, 1, ub as int);
        vstd::arithmetic::div_mod::lemma_div_basics(num as int);
    }
    let m: i64 = q as i64;
    if (a < 0) != (b < 0) {
        -m
    } else {
        m
    }
}

pub fn fx_round(a: i64) -> (r: i64)
    requires
        -FX_OP_CAP <= a <= FX_OP_CAP,
    ensures
        r == fx_round_spec(a as int),
        fx_abs(r as int) <= fx_abs(a as int) / (FX_ONE as int) + 1,
{
    let ua: u64 = if a < 0 {
        (-a) as u64
    } else {
        a as u64
    };
    let q: u64 = (ua + FX_HALF as u64) / (FX_ONE as u64);
    proof {
        vstd::arithmetic::div_mod::lemma_div_is_ordered(
            ua as int + FX_HALF as int,
            ua as int + FX_ONE as int,
            FX_ONE as int,
        );
        vstd::arithmetic::div_mod::lemma_div_plus_one(ua as int, FX_ONE as int);
    }
    let m: i64 = q as i64;
    if a < 0 {
        -m
    } else {
        m
    }
}

pub fn fx_clamp(v: i64, lo: i64, hi: i64) -> (r: i64)
    requires
        lo <= hi,
    ensures
        r == clamp_spec(v as int, lo as int, hi as int),
        lo <= r <= hi,
{
    if v < lo {
        lo
    } else if v > hi {
        hi
    } else {
        v
    }
}

pub fn fx_sat_add(a: i64, b: i64) -> (r: i64)
    ensures
        r == fx_sat_add_spec(a as int, b as int),
        -FX_STAT_CAP <= r <= FX_STAT_CAP,
{
    let s: i128 = a as i128 + b as i128;
    if s < -FX_STAT_CAP as i128 {
        -FX_STAT_CAP
    } else if s > FX_STAT_CAP as i128 {
        FX_STAT_CAP
    } else {
        s as i64
    }
}

/// Bound the magnitude of a fixed-point product from bounds on its operands.
pub proof fn lemma_fx_mul_le(a: int, b: int, ca: int, cb: int)
    requires
        fx_abs(a) <= ca,
        fx_abs(b) <= cb,
    ensures
        fx_abs(fx_mul_spec(a, b)) <= ca * cb / (FX_ONE as int),
{
    vstd::arithmetic::mul::lemma_mul_upper_bound(fx_abs(a), ca, fx_abs(b), cb);
    vstd::arithmetic::div_mod::lemma_div_is_ordered(
        fx_abs(a) * fx_abs(b),
        ca * cb,
        FX_ONE as int,
    );
    vstd::arithmetic::div_mod::lemma_div_pos_is_pos(fx_abs(a) * fx_abs(b), FX_ONE as int);
    vstd::arithmetic::mul::lemma_mul_nonnegative(fx_abs(a), fx_abs(b));
}

/// One fixed-point multiplication never grows a value whose cofactor is at
/// most one unit.
pub proof fn lemma_fx_mul_by_le_one(a: int, b: int)
    requires
        0 <= a,
        0 <= b <= FX_ONE as int,
    ensures
        0 <= fx_mul_spec(a, b) <= a,
{
    vstd::arithmetic::mul::lemma_mul_upper_bound(a, a, b, FX_ONE as int);
    vstd::arithmetic::div_mod::lemma_div_is_ordered(a * b, a * (FX_ONE as int), FX_ONE as int);
    vstd::arithmetic::div_mod::lemma_div_by_multiple(a, FX_ONE as int);
    vstd::arithmetic::div_mod::lemma_div_pos_is_pos(a * b, FX_ONE as int);
    vstd::arithmetic::mul::lemma_mul_nonnegative(a, b);
}

/// `num / den` in fixed point is at most `cap` units when `num <= cap * den`.
pub proof fn lemma_fx_div_le(num: int, den: int, cap: int)
    requires
        0 <= num,
        0 < den,
        0 <= cap,
        num <= cap * den,
    ensures
        0 <= fx_div_spec(num, den) <= cap * FX_ONE as int,
{
    assert(num * FX_ONE as int <= (cap * den) * FX_ONE as int) by (nonlinear_arith)
        requires
            num <= cap * den,
    ;
    assert((cap * den) * FX_ONE as int == (cap * FX_ONE as int) * den) by (nonlinear_arith);
    vstd::arithmetic::div_mod::lemma_div_is_ordered(
        num * FX_ONE as int,
        (cap * FX_ONE as int) * den,
        den,
    );
    vstd::arithmetic::div_mod::lemma_div_by_multiple(cap * FX_ONE as int, den);
    vstd::arithmetic::div_mod::lemma_div_pos_is_pos(num * FX_ONE as int, den);
    vstd::arithmetic::mul::lemma_mul_nonnegative(num, FX_ONE as int);
}

/// The fixed-point product does not depend on operand order.
pub proof fn lemma_fx_mul_comm(a: int, b: int)
    ensures
        fx_mul_spec(a, b) == fx_mul_spec(b, a),
{
    vstd::arithmetic::mul::lemma_mul_is_commutative(fx_abs(a), fx_abs(b));
}

/// Division by a positive constant that truncates toward zero.
pub open spec fn tdiv_spec(a: int, b: int) -> int
    recommends
        b > 0,
{
    if a >= 0 {
        a / b
    } else {
        -((-a) / b)
    }
}

pub fn tdiv(a: i64, b: i64) -> (r: i64)
    requires
        0 < b,
        a != i64::MIN,
    ensures
        r == tdiv_spec(a as int, b as int),
        fx_abs(r as int) <= fx_abs(a as int),
{
    proof {
        vstd::arithmetic::div_mod::lemma_div_is_ordered_by_denominator(fx_abs(a as int), 1, b as int);
        vstd::arithmetic::div_mod::lemma_div_basics(fx_abs(a as int));
        vstd::arithmetic::div_mod::lemma_div_pos_is_pos(fx_abs(a as int), b as int);
    }
    if a >= 0 {
        ((a as u64) / (b as u64)) as i64
    } else {
        -((((-a) as u64) / (b as u64)) as i64)
    }
}

/// A quotient is below `c` whenever the dividend is below `b * c`.
pub proof fn lemma_div_lt(x: int, b: int, c: int)
    requires
        0 <= x,
        0 < b,
        x < b * c,
    ensures
        x / b < c,
{
    if x / b >= c {
        vstd::arithmetic::div_mod::lemma_fundamental_div_mod(x, b);
        vstd::arithmetic::div_mod::lemma_mod_division_less_than_divisor(x, b);
        vstd::arithmetic::mul::lemma_mul_inequality(c, x / b, b);
        vstd::arithmetic::mul::lemma_mul_is_commutative(c, b);
        vstd::arithmetic::mul::lemma_mul_is_commutative(x / b, b);
    }
}

/// Truncated alternating series for `e^-f`, `f` in `[0, 1)` units: eight
/// terms of `1 - f + f^2/2! - ... + f^8/8!`, every step truncating.
pub open spec fn exp_frac_spec(f: int) -> int {
    let t1 = f;
    let t2 = t1 * f / (2 * FX_ONE as int);
    let t3 = t2 * f / (3 * FX_ONE as int);
    let t4 = t3 * f / (4 * FX_ONE as int);
    let t5 = t4 * f / (5 * FX_ONE as int);
    let t6 = t5 * f / (6 * FX_ONE as int);
    let t7 = t6 * f / (7 * FX_ONE as int);
    let t8 = t7 * f / (8 * FX_ONE as int);
    FX_ONE as int - t1 + t2 - t3 + t4 - t5 + t6 - t7 + t8
}

/// `v` decayed by `k` truncating multiplications with `e^-1`.
pub open spec fn exp_decay_spec(v: int, k: nat) -> int
    decreases k,
{
    if k == 0 {
        v
    } else {
        exp_decay_spec(v, (k - 1) as nat) * FX_E_INV as int / FX_ONE as int
    }
}

/// `e^-x` for non-negative fixed-point `x`: series for the fractional part,
/// one decay step per whole unit.
pub open spec fn fx_exp_neg_spec(x: int) -> int {
    exp_decay_spec(exp_frac_spec(x % (FX_ONE as int)), (x / (FX_ONE as int)) as nat)
}

pub proof fn lemma_exp_decay_bounds(v: int, k: nat)
    requires
        0 <= v,
    ensures
        0 <= exp_decay_spec(v, k) <= v,
    decreases k,
{
    if k > 0 {
        lemma_exp_decay_bounds(v, (k - 1) as nat);
        let w = exp_decay_spec(v, (k - 1) as nat);
        assert(w * FX_E_INV as int <= w * FX_ONE as int) by (nonlinear_arith)
            requires
                0 <= w,
        ;
        vstd::arithmetic::div_mod::lemma_div_is_ordered(
            w * FX_E_INV as int,
            w * FX_ONE as int,
            FX_ONE as int,
        );
        vstd::arithmetic::div_mod::lemma_div_by_multiple(w, FX_ONE as int);
        vstd::arithmetic::mul::lemma_mul_nonnegative(w, FX_E_INV as int);
        vstd::arithmetic::div_mod::lemma_div_pos_is_pos(w * FX_E_INV as int, FX_ONE as int);
    }
}

/// One decay step at least halves a value.
proof fn lemma_exp_decay_step_half(w: int)
    requires
        0 <= w,
    ensures
        0 <= w * FX_E_INV as int / (FX_ONE as int) <= w / 2,
{
    assert(w * FX_E_INV as int <= w * 500_000) by (nonlinear_arith)
        requires
            0 <= w,
    ;
    vstd::arithmetic::div_mod::lemma_div_is_ordered(
        w * FX_E_INV as int,
        w * 500_000,
        FX_ONE as int,
    );
    vstd::arithmetic::div_mod::lemma_div_denominator(w * 500_000, 500_000, 2);
    vstd::arithmetic::div_mod::lemma_div_by_multiple(w, 500_000);
    vstd::arithmetic::mul::lemma_mul_nonnegative(w, FX_E_INV as int);
    vstd::arithmetic::div_mod::lemma_div_pos_is_pos(w * FX_E_INV as int, FX_ONE as int);
}

proof fn lemma_exp_decay_pow(v: int, k: nat)
    requires
        0 <= v,
    ensures
        0 <= exp_decay_spec(v, k) <= v / (vstd::arithmetic::power2::pow2(k) as int),
    decreases k,
{
    vstd::arithmetic::power2::lemma_pow2_pos(k);
    if k == 0 {
        vstd::arithmetic::power2::lemma2_to64();
        vstd::arithmetic::div_mod::lemma_div_basics(v);
    } else {
        lemma_exp_decay_pow(v, (k - 1) as nat);
        let w = exp_decay_spec(v, (k - 1) as nat);
        let p = vstd::arithmetic::power2::pow2((k - 1) as nat) as int;
        vstd::arithmetic::power2::lemma_pow2_pos((k - 1) as nat);
        lemma_exp_decay_step_half(w);
        vstd::arithmetic::div_mod::lemma_div_is_ordered(w, v / p, 2);
        vstd::arithmetic::div_mod::lemma_div_denominator(v, p, 2);
        vstd::arithmetic::power2::lemma_pow2_unfold(k);
        assert(vstd::arithmetic::power2::pow2(k) as int == p * 2) by {
            vstd::arithmetic::power::lemma_pow1(2);
            assert(vstd::arithmetic::power2::pow2(k) == 2 * vstd::arithmetic::power2::pow2(
                (k - 1) as nat,
            ));
        };
        vstd::arithmetic::div_mod::lemma_div_pos_is_pos(w, 2);
    }
}

pub proof fn lemma_exp_decay_zero(v: int, k: nat)
    requires
        0 <= v <= FX_ONE as int,
        k >= 20,
    ensures
        exp_decay_spec(v, k) == 0,
    decreases k,
{
    if k == 20 {
        lemma_exp_decay_pow(v, 20);
        vstd::arithmetic::power2::lemma2_to64();
        vstd::arithmetic::div_mod::lemma_div_is_ordered(v, FX_ONE as int, 0x100000);
        vstd::arithmetic::div_mod::lemma_basic_div(FX_ONE as int, 0x100000);
    } else {
        lemma_exp_decay_zero(v, (k - 1) as nat);
    }
}

/// One series-term step: `t * f / (n units)`.
fn exp_term_step(t: u64, f: u64, n: u64) -> (r: u64)
    requires
        t <= FX_ONE as u64,
        f < FX_ONE as u64,
        1 <= n <= 16,
    ensures
        r as int == t as int * f as int / (n as int * FX_ONE as int),
        r <= t,
{
    proof {
        assert(t as int * f as int <= FX_ONE as int * FX_ONE as int) by (nonlinear_arith)
            requires
                0 <= t as int <= FX_ONE as int,
                0 <= f as int <= FX_ONE as int,
        ;
        assert(t as int * f as int <= t as int * (n as int * FX_ONE as int)) by (nonlinear_arith)
            requires
                0 <= t as int,
                0 <= f as int <= FX_ONE as int,
                1 <= n as int,
        ;
        vstd::arithmetic::div_mod::lemma_div_is_ordered(
            t as int * f as int,
            t as int * (n as int * FX_ONE as int),
            n as int * FX_ONE as int,
        );
        vstd::arithmetic::div_mod::lemma_div_by_multiple(t as int, n as int * FX_ONE as int);
    }
    t * f / (n * (FX_ONE as u64))
}

/// `e^-x` in fixed point for `x >= 0`, by the truncated series above.
pub fn fx_exp_neg(x: i64) -> (r: i64)
    requires
        0 <= x,
    ensures
        r == fx_exp_neg_spec(x as int),
        0 <= r <= FX_ONE,
        1 <= x ==> r < FX_ONE,
{
    let xu: u64 = x as u64;
    let k: u64 = xu / (FX_ONE as u64);
    let f: u64 = xu % (FX_ONE as u64);
    let t1: u64 = f;
    let t2: u64 = exp_term_step(t1, f, 2);
    let t3: u64 = exp_term_step(t2, f, 3);
    let t4: u64 = exp_term_step(t3, f, 4);
    let t5: u64 = exp_term_step(t4, f, 5);
    let t6: u64 = exp_term_step(t5, f, 6);
    let t7: u64 = exp_term_step(t6, f, 7);
    let t8: u64 = exp_term_step(t7, f, 8);
    let e1: u64 = FX_ONE as u64 - t1;
    let e2: u64 = e1 + t2;
    let e3: u64 = e2 - t3;
    let e4: u64 = e3 + t4;
    let e5: u64 = e4 - t5;
    let e6: u64 = e5 + t6;
    let e7: u64 = e6 - t7;
    let e8: u64 = e7 + t8;
    proof {
        assert(e8 as int == exp_frac_spec(f as int));
        assert(e8 <= FX_ONE as u64);
        if f >= 2 {
            // t2 <= f / 2 <= f - 1, so even the largest partial sum stays
            // strictly below one unit.
            assert(t1 as int * f as int <= t1 as int * FX_ONE as int) by (nonlinear_arith)
                requires
                    0 <= t1 as int,
                    f as int <= FX_ONE as int,
            ;
            vstd::arithmetic::div_mod::lemma_div_is_ordered(
                t1 as int * f as int,
                t1 as int * FX_ONE as int,
                2 * FX_ONE as int,
            );
            vstd::arithmetic::div_mod::lemma_div_denominator(
                t1 as int * FX_ONE as int,
                FX_ONE as int,
                2,
            );
            vstd::arithmetic::div_mod::lemma_div_by_multiple(t1 as int, FX_ONE as int);
            assert(t2 as int <= t1 as int / 2);
        }
        if f == 1 {
            vstd::arithmetic::div_mod::lemma_basic_div(1, 2 * FX_ONE as int);
            assert(t2 == 0);
        }
        assert(1 <= f ==> e8 < FX_ONE as u64);
    }
    let kk: u64 = if k > 20 {
        20
    } else {
        k
    };
    let mut r: u64 = e8;
    let mut i: u64 = 0;
    while i < kk
        invariant
            0 <= i <= kk,
            kk <= 20,
            e8 <= FX_ONE as u64,
            r as int == exp_decay_spec(e8 as int, i as nat),
            r <= FX_ONE as u64,
            1 <= i ==> r <= FX_E_INV as u64,
        decreases kk - i,
    {
        proof {
            let w = r as int;
            assert(w * FX_E_INV as int <= FX_ONE as int * FX_E_INV as int) by (nonlinear_arith)
                requires
                    0 <= w <= FX_ONE as int,
            ;
            vstd::arithmetic::div_mod::lemma_div_is_ordered(
                w * FX_E_INV as int,
                FX_ONE as int * FX_E_INV as int,
                FX_ONE as int,
            );
            vstd::arithmetic::mul::lemma_mul_is_commutative(FX_ONE as int, FX_E_INV as int);
            vstd::arithmetic::div_mod::lemma_div_by_multiple(FX_E_INV as int, FX_ONE as int);
        }
        let next: u64 = r * (FX_E_INV as u64) / (FX_ONE as u64);
        r = next;
        i = i + 1;
    }
    proof {
        if k > 20 {
            lemma_exp_decay_zero(e8 as int, 20);
            lemma_exp_decay_zero(e8 as int, k as nat);
        }
        if k >= 1 {
            assert(r < FX_ONE as u64);
        }
        vstd::arithmetic::div_mod::lemma_fundamental_div_mod(xu as int, FX_ONE as int);
        assert(x as int % (FX_ONE as int) == f as int);
        assert(x as int / (FX_ONE as int) == k as int);
        assert(1 <= x && k == 0 ==> 1 <= f);
    }
    r as i64
}

} // verus!
