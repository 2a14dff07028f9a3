//! Lookup tables: bounded-domain function approximators built once and read
//! through clamped, interpolated lookups.
//!
//! Four tables serve the scoring engine: a sigmoid over `[-4, 4]`, a
//! log-ratio over `[0.25, 4]`, a discount-factor series `rate^h`, and an
//! exponential distance kernel `e^(-decay * d)`.  Every sample is a
//! fixed-point value computed by exact integer series, so each table is a
//! pure function of its construction arguments.

use vstd::prelude::*;

use crate::fixed::{
    clamp_spec, fx_abs, fx_clamp, fx_div, fx_div_spec, fx_exp_neg, fx_exp_neg_spec, fx_mul,
    fx_mul_spec, lemma_div_lt, lemma_fx_mul_by_le_one, lemma_fx_mul_le, FX_ONE,
};

verus! {

/// Widest domain half-width a sampled table may use (64 whole units).
pub const FX_DOMAIN_CAP: i64 = 64_000_000;

/// Largest sample magnitude a table may hold (32 whole units).
pub const FX_TABLE_CAP: i64 = 32_000_000;

/// Well-formedness of a sampled table: at least two samples over a proper
/// domain, a positive step, and all samples within the table cap.
pub open spec fn table_wf(table: Seq<i64>, min_x: int, max_x: int, step: int) -> bool {
    &&& table.len() >= 2
    &&& -FX_DOMAIN_CAP as int <= min_x < max_x <= FX_DOMAIN_CAP as int
    &&& 1 <= step <= max_x - min_x
    &&& forall|i: int|
        0 <= i < table.len() ==> -FX_TABLE_CAP as int <= #[trigger] table[i] <= FX_TABLE_CAP as int
}

/// Samples never decrease from one index to the next.
pub open spec fn table_sorted(table: Seq<i64>) -> bool {
    forall|i: int| 0 < i < table.len() ==> #[trigger] table[i - 1] <= table[i]
}

/// Fractional table position of `x` after clamping into the domain.
pub open spec fn table_pos_spec(min_x: int, max_x: int, step: int, x: int) -> int {
    fx_div_spec(clamp_spec(x, min_x, max_x) - min_x, step)
}

/// Clamp, locate, and linearly interpolate between two adjacent samples; the
/// last sample answers for positions at or past the final index.
pub open spec fn table_lookup_spec(
    table: Seq<i64>,
    min_x: int,
    max_x: int,
    step: int,
    x: int,
) -> int {
    let pos = table_pos_spec(min_x, max_x, step, x);
    let idx = pos / (FX_ONE as int);
    if idx >= table.len() - 1 {
        table[table.len() - 1] as int
    } else {
        table[idx] + fx_mul_spec(table[idx + 1] - table[idx] as int, pos % (FX_ONE as int))
    }
}

/// Shared exec lookup over a sampled table.
fn table_lookup(table: &Vec<i64>, min_x: i64, max_x: i64, step: i64, x: i64) -> (r: i64)
    requires
        table_wf(table@, min_x as int, max_x as int, step as int),
    ensures
        r == table_lookup_spec(table@, min_x as int, max_x as int, step as int, x as int),
{
    let xc = fx_clamp(x, min_x, max_x);
    let d = xc - min_x;
    let pos = fx_div(d, step);
    let posu: u64 = pos as u64;
    let idxq: u64 = posu / (FX_ONE as u64);
    let last = table.len() - 1;
    if idxq >= last as u64 {
        table[last]
    } else {
        let idx = idxq as usize;
        let frac: i64 = (posu % (FX_ONE as u64)) as i64;
        let t0 = table[idx];
        let t1 = table[idx + 1];
        proof {
            vstd::arithmetic::div_mod::lemma_fundamental_div_mod(pos as int, FX_ONE as int);
        }
        let dlt = t1 - t0;
        let m = fx_mul(dlt, frac);
        proof {
            lemma_fx_mul_frac_between(dlt as int, frac as int);
        }
        t0 + m
    }
}

/// An interpolated lookup stays inside any band that contains every sample.
pub proof fn lemma_table_lookup_in_range(
    table: Seq<i64>,
    min_x: int,
    max_x: int,
    step: int,
    x: int,
    lo: int,
    hi: int,
)
    requires
        table_wf(table, min_x, max_x, step),
        forall|i: int| 0 <= i < table.len() ==> lo <= #[trigger] table[i] <= hi,
    ensures
        lo <= table_lookup_spec(table, min_x, max_x, step, x) <= hi,
{
    let pos = table_pos_spec(min_x, max_x, step, x);
    let idx = pos / (FX_ONE as int);
    let xc = clamp_spec(x, min_x, max_x);
    vstd::arithmetic::div_mod::lemma_div_pos_is_pos(
        fx_abs(xc - min_x) * (FX_ONE as int),
        fx_abs(step),
    );
    vstd::arithmetic::div_mod::lemma_div_pos_is_pos(pos, FX_ONE as int);
    if idx < table.len() - 1 {
        let frac = pos % (FX_ONE as int);
        vstd::arithmetic::div_mod::lemma_mod_division_less_than_divisor(pos, FX_ONE as int);
        let t0 = table[idx];
        let t1 = table[idx + 1];
        let d = t1 - t0;
        lemma_fx_mul_frac_between(d, frac);
    }
}

/// `fx_mul_spec(d, frac)` with `0 <= frac < FX_ONE` lies between `0` and `d`.
proof fn lemma_fx_mul_frac_between(d: int, frac: int)
    requires
        0 <= frac <= FX_ONE as int,
    ensures
        d >= 0 ==> 0 <= fx_mul_spec(d, frac) <= d,
        d < 0 ==> d <= fx_mul_spec(d, frac) <= 0,
{
    lemma_fx_mul_le(d, frac, fx_abs(d), FX_ONE as int);
    vstd::arithmetic::div_mod::lemma_div_by_multiple(fx_abs(d), FX_ONE as int);
    vstd::arithmetic::div_mod::lemma_div_pos_is_pos(fx_abs(d) * frac, FX_ONE as int);
    vstd::arithmetic::mul::lemma_mul_nonnegative(fx_abs(d), frac);
}

/// Any two positions of a sorted table are ordered, not just adjacent ones.
proof fn lemma_sorted_pair(table: Seq<i64>, i: int, j: int)
    requires
        table_sorted(table),
        0 <= i <= j < table.len(),
    ensures
        table[i] <= table[j],
    decreases j - i,
{
    if i < j {
        lemma_sorted_pair(table, i, j - 1);
    }
}

/// On a sorted table the interpolated lookup is monotone in its argument.
pub proof fn lemma_table_lookup_monotone(
    table: Seq<i64>,
    min_x: int,
    max_x: int,
    step: int,
    x1: int,
    x2: int,
)
    requires
        table_wf(table, min_x, max_x, step),
        table_sorted(table),
        x1 <= x2,
    ensures
        table_lookup_spec(table, min_x, max_x, step, x1) <= table_lookup_spec(
            table,
            min_x,
            max_x,
            step,
            x2,
        ),
{
    let c1 = clamp_spec(x1, min_x, max_x);
    let c2 = clamp_spec(x2, min_x, max_x);
    let pos1 = table_pos_spec(min_x, max_x, step, x1);
    let pos2 = table_pos_spec(min_x, max_x, step, x2);
    assert((c1 - min_x) * (FX_ONE as int) <= (c2 - min_x) * (FX_ONE as int)) by (nonlinear_arith)
        requires
            c1 <= c2,
    ;
    vstd::arithmetic::div_mod::lemma_div_is_ordered(
        (c1 - min_x) * (FX_ONE as int),
        (c2 - min_x) * (FX_ONE as int),
        step,
    );
    assert(pos1 <= pos2);
    vstd::arithmetic::div_mod::lemma_div_is_ordered(pos1, pos2, FX_ONE as int);
    let idx1 = pos1 / (FX_ONE as int);
    let idx2 = pos2 / (FX_ONE as int);
    assert(idx1 <= idx2);
    vstd::arithmetic::div_mod::lemma_mod_division_less_than_divisor(pos1, FX_ONE as int);
    vstd::arithmetic::div_mod::lemma_mod_division_less_than_divisor(pos2, FX_ONE as int);
    vstd::arithmetic::div_mod::lemma_div_pos_is_pos(
        (c1 - min_x) * (FX_ONE as int),
        step,
    );
    vstd::arithmetic::mul::lemma_mul_nonnegative(c1 - min_x, FX_ONE as int);
    vstd::arithmetic::div_mod::lemma_div_pos_is_pos(pos1, FX_ONE as int);
    let frac1 = pos1 % (FX_ONE as int);
    let frac2 = pos2 % (FX_ONE as int);
    vstd::arithmetic::div_mod::lemma_fundamental_div_mod(pos1, FX_ONE as int);
    vstd::arithmetic::div_mod::lemma_fundamental_div_mod(pos2, FX_ONE as int);
    let r1 = table_lookup_spec(table, min_x, max_x, step, x1);
    let r2 = table_lookup_spec(table, min_x, max_x, step, x2);
    if idx1 >= table.len() - 1 {
        assert(r1 == r2);
    } else {
        let t0 = table[idx1];
        let t1 = table[idx1 + 1];
        lemma_sorted_pair(table, idx1, idx1 + 1);
        let d = t1 - t0;
        lemma_fx_mul_frac_between(d, frac1);
        assert(r1 <= t1);
        if idx2 >= table.len() - 1 {
            lemma_sorted_pair(table, idx1 + 1, table.len() - 1);
            assert(r1 <= r2);
        } else if idx1 == idx2 {
            // Same cell: the offset grows with the fractional position.
            assert(d * frac1 <= d * frac2) by (nonlinear_arith)
                requires
                    0 <= d,
                    frac1 <= frac2,
            ;
            vstd::arithmetic::div_mod::lemma_div_is_ordered(
                d * frac1,
                d * frac2,
                FX_ONE as int,
            );
        } else {
            lemma_sorted_pair(table, idx1 + 1, idx2);
            lemma_fx_mul_frac_between(table[idx2 + 1] - table[idx2], frac2);
            lemma_sorted_pair(table, idx2, idx2 + 1);
            assert(r2 >= table[idx2]);
        }
    }
}

/// Clamping means every argument at or past a boundary reads the boundary's
/// value.
pub proof fn lemma_table_lookup_clamps(
    table: Seq<i64>,
    min_x: int,
    max_x: int,
    step: int,
    x: int,
)
    requires
        table_wf(table, min_x, max_x, step),
    ensures
        x <= min_x ==> table_lookup_spec(table, min_x, max_x, step, x) == table_lookup_spec(
            table,
            min_x,
            max_x,
            step,
            min_x,
        ),
        x >= max_x ==> table_lookup_spec(table, min_x, max_x, step, x) == table_lookup_spec(
            table,
            min_x,
            max_x,
            step,
            max_x,
        ),
{
}

/// The fixed-point logistic value `1 / (1 + e^-x)` at one point.
pub open spec fn sigmoid_point_spec(x: int) -> int {
    if x >= 0 {
        FX_ONE as int * FX_ONE as int / (FX_ONE as int + fx_exp_neg_spec(x))
    } else {
        FX_ONE as int - FX_ONE as int * FX_ONE as int / (FX_ONE as int + fx_exp_neg_spec(-x))
    }
}

/// Sample `i` of the sigmoid table: the point value, lifted to the previous
/// sample where integer truncation would dent monotonicity.
pub open spec fn sigmoid_table_spec(min_x: int, step: int, i: nat) -> int
    decreases i,
{
    if i == 0 {
        sigmoid_point_spec(min_x)
    } else {
        let prev = sigmoid_table_spec(min_x, step, (i - 1) as nat);
        let raw = sigmoid_point_spec(min_x + i * step);
        if raw < prev {
            prev
        } else {
            raw
        }
    }
}

fn sigmoid_point(x: i64) -> (r: i64)
    requires
        -FX_DOMAIN_CAP <= x <= FX_DOMAIN_CAP,
    ensures
        r == sigmoid_point_spec(x as int),
        0 <= r <= FX_ONE,
{
    if x >= 0 {
        let t = fx_exp_neg(x);
        let denom: u64 = (FX_ONE + t) as u64;
        let q: u64 = (FX_ONE as u64 * FX_ONE as u64) / denom;
        proof {
            vstd::arithmetic::div_mod::lemma_div_is_ordered_by_denominator(
                FX_ONE as int * FX_ONE as int,
                FX_ONE as int,
                denom as int,
            );
            vstd::arithmetic::div_mod::lemma_div_by_multiple(FX_ONE as int, FX_ONE as int);
        }
        q as i64
    } else {
        let t = fx_exp_neg(-x);
        let denom: u64 = (FX_ONE + t) as u64;
        let q: u64 = (FX_ONE as u64 * FX_ONE as u64) / denom;
        proof {
            vstd::arithmetic::div_mod::lemma_div_is_ordered_by_denominator(
                FX_ONE as int * FX_ONE as int,
                FX_ONE as int,
                denom as int,
            );
            vstd::arithmetic::div_mod::lemma_div_by_multiple(FX_ONE as int, FX_ONE as int);
            vstd::arithmetic::div_mod::lemma_div_pos_is_pos(
                FX_ONE as int * FX_ONE as int,
                denom as int,
            );
        }
        FX_ONE - (q as i64)
    }
}

/// Sigmoid lookup table over a bounded domain.
#[derive(Clone, Debug)]
pub struct SigmoidLut {
    pub table: Vec<i64>,
    pub min_x: i64,
    pub max_x: i64,
    pub step: i64,
}

impl SigmoidLut {
    pub open spec fn wf(&self) -> bool {
        &&& table_wf(self.table@, self.min_x as int, self.max_x as int, self.step as int)
        &&& table_sorted(self.table@)
        &&& forall|i: int|
            0 <= i < self.table@.len() ==> 0 <= #[trigger] self.table@[i] <= FX_ONE
    }

    /// Build `steps` sigmoid samples over `[min_x, max_x]`.
    pub fn new(min_x: i64, max_x: i64, steps: usize) -> (r: SigmoidLut)
        requires
            2 <= steps <= 65536,
            -FX_DOMAIN_CAP <= min_x < max_x <= FX_DOMAIN_CAP,
            max_x - min_x >= steps - 1,
        ensures
            r.wf(),
            r.min_x == min_x,
            r.max_x == max_x,
            r.table@.len() == steps,
            r.step == (max_x - min_x) as int / (steps - 1) as int,
            forall|i: int|
                0 <= i < steps ==> #[trigger] r.table@[i] == sigmoid_table_spec(
                    min_x as int,
                    r.step as int,
                    i as nat,
                ),
    {
        let span: u64 = (max_x - min_x) as u64;
        let step: i64 = (span / (steps - 1) as u64) as i64;
        proof {
            vstd::arithmetic::div_mod::lemma_div_by_self((steps - 1) as int);
            vstd::arithmetic::div_mod::lemma_div_is_ordered(
                (steps - 1) as int,
                span as int,
                (steps - 1) as int,
            );
            vstd::arithmetic::div_mod::lemma_fundamental_div_mod(span as int, (steps - 1) as int);
            vstd::arithmetic::div_mod::lemma_mod_division_less_than_divisor(
                span as int,
                (steps - 1) as int,
            );
        }
        let mut table: Vec<i64> = Vec::new();
        let mut i: usize = 0;
        while i < steps
            invariant
                i <= steps,
                2 <= steps <= 65536,
                -FX_DOMAIN_CAP <= min_x < max_x <= FX_DOMAIN_CAP,
                1 <= step,
                (steps - 1) as int * step as int <= (max_x - min_x) as int,
                step == (max_x - min_x) as int / (steps - 1) as int,
                table@.len() == i,
                forall|j: int|
                    0 <= j < i ==> #[trigger] table@[j] == sigmoid_table_spec(
                        min_x as int,
                        step as int,
                        j as nat,
                    ),
                forall|j: int| 0 <= j < i ==> 0 <= #[trigger] table@[j] <= FX_ONE,
                forall|j: int| 0 < j < i ==> #[trigger] table@[j - 1] <= table@[j],
            decreases steps - i,
        {
            proof {
                assert(i as int * step as int <= (steps - 1) as int * step as int)
                    by (nonlinear_arith)
                    requires
                        0 <= i as int <= (steps - 1) as int,
                        0 <= step as int,
                ;
            }
            let x: i64 = min_x + (i as i64) * step;
            let raw = sigmoid_point(x);
            let v: i64 = if i > 0 {
                let prev = table[i - 1];
                if raw < prev {
                    prev
                } else {
                    raw
                }
            } else {
                raw
            };
            table.push(v);
            i = i + 1;
        }
        SigmoidLut { table, min_x, max_x, step }
    }

    /// Clamped, interpolated sigmoid lookup.
    pub fn lookup(&self, x: i64) -> (r: i64)
        requires
            self.wf(),
        ensures
            r == self.lookup_spec(x as int),
            0 <= r <= FX_ONE,
    {
        let r = table_lookup(&self.table, self.min_x, self.max_x, self.step, x);
        proof {
            lemma_table_lookup_in_range(
                self.table@,
                self.min_x as int,
                self.max_x as int,
                self.step as int,
                x as int,
                0,
                FX_ONE as int,
            );
        }
        r
    }

    pub open spec fn lookup_spec(&self, x: int) -> int {
        table_lookup_spec(self.table@, self.min_x as int, self.max_x as int, self.step as int, x)
    }

    /// The sigmoid lookup never decreases as its argument grows.
    pub proof fn lemma_lookup_monotone(&self, x1: int, x2: int)
        requires
            self.wf(),
            x1 <= x2,
        ensures
            self.lookup_spec(x1) <= self.lookup_spec(x2),
    {
        lemma_table_lookup_monotone(
            self.table@,
            self.min_x as int,
            self.max_x as int,
            self.step as int,
            x1,
            x2,
        );
    }

    /// Arguments outside the domain read the nearest boundary's value.
    pub proof fn lemma_lookup_clamps(&self, x: int)
        requires
            self.wf(),
        ensures
            x <= self.min_x as int ==> self.lookup_spec(x) == self.lookup_spec(self.min_x as int),
            x >= self.max_x as int ==> self.lookup_spec(x) == self.lookup_spec(self.max_x as int),
    {
        lemma_table_lookup_clamps(
            self.table@,
            self.min_x as int,
            self.max_x as int,
            self.step as int,
            x,
        );
    }
}

/// The engine's default sigmoid table: domain `[-4, 4]`, 256 samples, every
/// sample pinned to the series value at its position.
pub open spec fn sigmoid_default_ok(s: SigmoidLut) -> bool {
    &&& s.wf()
    &&& s.min_x == -4 * FX_ONE
    &&& s.max_x == 4 * FX_ONE
    &&& s.table@.len() == 256
    &&& s.step == (8 * FX_ONE as int) / 255
    &&& forall|i: int|
        0 <= i < 256 ==> #[trigger] s.table@[i] == sigmoid_table_spec(
            -4 * FX_ONE as int,
            s.step as int,
            i as nat,
        )
}

impl Default for SigmoidLut {
    /// The engine's default sigmoid: domain `[-4, 4]`, 256 samples.
    fn default() -> (r: SigmoidLut)
        ensures
            sigmoid_default_ok(r),
    {
        SigmoidLut::new(-4 * FX_ONE, 4 * FX_ONE, 256)
    }
}

/// Odd power `m^(2k+1)` of the series argument, truncating at every step.
pub open spec fn ln_pow_spec(m: int, y2: int, k: nat) -> int
    decreases k,
{
    if k == 0 {
        m
    } else {
        fx_mul_spec(ln_pow_spec(m, y2, (k - 1) as nat), y2)
    }
}

/// Partial sum of the inverse-hyperbolic-tangent series
/// `m + m^3/3 + m^5/5 + ...`, truncating at every step.
pub open spec fn ln_sum_spec(m: int, y2: int, k: nat) -> int
    decreases k,
{
    if k == 0 {
        m
    } else {
        ln_sum_spec(m, y2, (k - 1) as nat) + ln_pow_spec(m, y2, k) / (2 * (k as int) + 1)
    }
}

/// Fixed-point natural logarithm of a positive ratio, by thirteen terms of
/// `ln(r) = 2 * atanh((r - 1) / (r + 1))`.
pub open spec fn fx_ln_spec(r: int) -> int {
    let y = fx_div_spec(r - FX_ONE as int, r + FX_ONE as int);
    let m = fx_abs(y);
    let y2 = fx_mul_spec(m, m);
    let s = 2 * ln_sum_spec(m, y2, 12);
    if r >= FX_ONE as int {
        s
    } else {
        -s
    }
}

proof fn lemma_ln_sum_zero(y2: int, k: nat)
    ensures
        ln_pow_spec(0, y2, k) == 0,
        ln_sum_spec(0, y2, k) == 0,
    decreases k,
{
    if k > 0 {
        lemma_ln_sum_zero(y2, (k - 1) as nat);
        vstd::arithmetic::div_mod::lemma_div_of0(FX_ONE as int);
        vstd::arithmetic::div_mod::lemma_div_of0(2 * (k as int) + 1);
        vstd::arithmetic::mul::lemma_mul_by_zero_is_zero(fx_abs(y2));
    }
}

fn fx_ln(r: i64) -> (res: i64)
    requires
        1 <= r <= FX_DOMAIN_CAP,
    ensures
        res == fx_ln_spec(r as int),
        fx_abs(res as int) <= 26 * FX_ONE as int,
{
    let y = fx_div(r - FX_ONE, r + FX_ONE);
    let m: i64 = if y < 0 {
        -y
    } else {
        y
    };
    proof {
        // |r - 1| < r + 1 in units, so the series argument is below one.
        assert(fx_abs(r as int - FX_ONE as int) < r as int + FX_ONE as int);
        assert(fx_abs(r as int - FX_ONE as int) * (FX_ONE as int) < (r as int + FX_ONE as int) * (
        FX_ONE as int)) by (nonlinear_arith)
            requires
                0 <= fx_abs(r as int - FX_ONE as int) < r as int + FX_ONE as int,
        ;
        lemma_div_lt(
            fx_abs(r as int - FX_ONE as int) * (FX_ONE as int),
            r as int + FX_ONE as int,
            FX_ONE as int,
        );
        vstd::arithmetic::mul::lemma_mul_is_commutative(
            r as int + FX_ONE as int,
            FX_ONE as int,
        );
        vstd::arithmetic::div_mod::lemma_div_pos_is_pos(
            fx_abs(r as int - FX_ONE as int) * (FX_ONE as int),
            r as int + FX_ONE as int,
        );
        vstd::arithmetic::mul::lemma_mul_nonnegative(
            fx_abs(r as int - FX_ONE as int),
            FX_ONE as int,
        );
    }
    let y2 = fx_mul(m, m);
    proof {
        lemma_fx_mul_by_le_one(m as int, m as int);
    }
    let mut p: i64 = m;
    let mut sum: i64 = m;
    let mut k: u64 = 1;
    while k <= 12
        invariant
            1 <= k <= 13,
            0 <= m < FX_ONE,
            0 <= y2 <= m,
            p == ln_pow_spec(m as int, y2 as int, (k - 1) as nat),
            sum == ln_sum_spec(m as int, y2 as int, (k - 1) as nat),
            0 <= p <= m,
            0 <= sum <= k as int * m as int,
        decreases 13 - k,
    {
        let pn = fx_mul(p, y2);
        proof {
            lemma_fx_mul_by_le_one(p as int, y2 as int);
        }
        p = pn;
        let t: i64 = ((p as u64) / (2 * k + 1)) as i64;
        proof {
            vstd::arithmetic::div_mod::lemma_div_is_ordered_by_denominator(
                p as int,
                1,
                2 * k as int + 1,
            );
            vstd::arithmetic::div_mod::lemma_div_basics(p as int);
            vstd::arithmetic::div_mod::lemma_div_pos_is_pos(p as int, 2 * k as int + 1);
            assert((k + 1) as int * m as int == k as int * m as int + m as int)
                by (nonlinear_arith)
            ;
            assert(k as int * m as int <= 13 * FX_ONE as int) by (nonlinear_arith)
                requires
                    0 <= k as int <= 13,
                    0 <= m as int <= FX_ONE as int,
            ;
        }
        sum = sum + t;
        k = k + 1;
    }
    let s2 = 2 * sum;
    proof {
        if y == 0 {
            lemma_ln_sum_zero(y2 as int, 12);
        }
    }
    if y < 0 {
        -s2
    } else {
        s2
    }
}

/// Log-ratio lookup table for force ratios.
#[derive(Clone, Debug)]
pub struct LogRatioLut {
    pub table: Vec<i64>,
    pub min_ratio: i64,
    pub max_ratio: i64,
    pub step: i64,
}

impl LogRatioLut {
    pub open spec fn wf(&self) -> bool {
        table_wf(self.table@, self.min_ratio as int, self.max_ratio as int, self.step as int)
    }

    /// Build `steps` samples of `ln(ratio)` over `[min_ratio, max_ratio]`.
    pub fn new(min_ratio: i64, max_ratio: i64, steps: usize) -> (r: LogRatioLut)
        requires
            2 <= steps <= 65536,
            1 <= min_ratio < max_ratio <= FX_DOMAIN_CAP,
            max_ratio - min_ratio >= steps - 1,
        ensures
            r.wf(),
            r.min_ratio == min_ratio,
            r.max_ratio == max_ratio,
            r.table@.len() == steps,
            r.step == (max_ratio - min_ratio) as int / (steps - 1) as int,
            forall|i: int|
                0 <= i < steps ==> #[trigger] r.table@[i] == fx_ln_spec(
                    min_ratio as int + i * r.step as int,
                ),
    {
        let span: u64 = (max_ratio - min_ratio) as u64;
        let step: i64 = (span / (steps - 1) as u64) as i64;
        proof {
            vstd::arithmetic::div_mod::lemma_div_by_self((steps - 1) as int);
            vstd::arithmetic::div_mod::lemma_div_is_ordered(
                (steps - 1) as int,
                span as int,
                (steps - 1) as int,
            );
            vstd::arithmetic::div_mod::lemma_fundamental_div_mod(span as int, (steps - 1) as int);
            vstd::arithmetic::div_mod::lemma_mod_division_less_than_divisor(
                span as int,
                (steps - 1) as int,
            );
        }
        let mut table: Vec<i64> = Vec::new();
        let mut i: usize = 0;
        while i < steps
            invariant
                i <= steps,
                2 <= steps <= 65536,
                1 <= min_ratio < max_ratio <= FX_DOMAIN_CAP,
                1 <= step,
                (steps - 1) as int * step as int <= (max_ratio - min_ratio) as int,
                step == (max_ratio - min_ratio) as int / (steps - 1) as int,
                table@.len() == i,
                forall|j: int|
                    0 <= j < i ==> #[trigger] table@[j] == fx_ln_spec(
                        min_ratio as int + j * step as int,
                    ),
                forall|j: int|
                    0 <= j < i ==> -FX_TABLE_CAP <= #[trigger] table@[j] <= FX_TABLE_CAP,
            decreases steps - i,
        {
            proof {
                assert(i as int * step as int <= (steps - 1) as int * step as int)
                    by (nonlinear_arith)
                    requires
                        0 <= i as int <= (steps - 1) as int,
                        0 <= step as int,
                ;
                vstd::arithmetic::mul::lemma_mul_nonnegative(i as int, step as int);
            }
            let ratio: i64 = min_ratio + (i as i64) * step;
            let v = fx_ln(ratio);
            table.push(v);
            i = i + 1;
        }
        LogRatioLut { table, min_ratio, max_ratio, step }
    }

    pub open spec fn lookup_spec(&self, x: int) -> int {
        table_lookup_spec(
            self.table@,
            self.min_ratio as int,
            self.max_ratio as int,
            self.step as int,
            x,
        )
    }

    /// Clamped, interpolated logarithm lookup.
    pub fn lookup(&self, ratio: i64) -> (r: i64)
        requires
            self.wf(),
        ensures
            r == self.lookup_spec(ratio as int),
            -FX_TABLE_CAP <= r <= FX_TABLE_CAP,
    {
        let r = table_lookup(&self.table, self.min_ratio, self.max_ratio, self.step, ratio);
        proof {
            lemma_table_lookup_in_range(
                self.table@,
                self.min_ratio as int,
                self.max_ratio as int,
                self.step as int,
                ratio as int,
                -FX_TABLE_CAP as int,
                FX_TABLE_CAP as int,
            );
        }
        r
    }
}

/// The engine's default log-ratio table: domain `[0.25, 4]`, 256 samples,
/// every sample pinned to the logarithm series at its position.
pub open spec fn log_ratio_default_ok(s: LogRatioLut) -> bool {
    &&& s.wf()
    &&& s.min_ratio == 250_000
    &&& s.max_ratio == 4 * FX_ONE
    &&& s.table@.len() == 256
    &&& s.step == (4 * FX_ONE as int - 250_000) / 255
    &&& forall|i: int|
        0 <= i < 256 ==> #[trigger] s.table@[i] == fx_ln_spec(250_000 + i * s.step as int)
}

impl Default for LogRatioLut {
    /// The engine's default log-ratio table: domain `[0.25, 4]`, 256 samples.
    fn default() -> (r: LogRatioLut)
        ensures
            log_ratio_default_ok(r),
    {
        LogRatioLut::new(250_000, 4 * FX_ONE, 256)
    }
}

/// Truncating fixed-point power `rate^h`, with `rate^0 == 1`.
pub open spec fn rate_pow_spec(rate: int, h: nat) -> int
    decreases h,
{
    if h == 0 {
        FX_ONE as int
    } else {
        fx_mul_spec(rate_pow_spec(rate, (h - 1) as nat), rate)
    }
}

/// A truncating power of a factor at most one stays within `[0, 1]`.
pub proof fn lemma_rate_pow_bounds(rate: int, h: nat)
    requires
        0 <= rate <= FX_ONE as int,
    ensures
        0 <= rate_pow_spec(rate, h) <= FX_ONE as int,
    decreases h,
{
    if h > 0 {
        lemma_rate_pow_bounds(rate, (h - 1) as nat);
        lemma_fx_mul_by_le_one(rate_pow_spec(rate, (h - 1) as nat), rate);
    }
}

/// Discount-factor table: `factors[h - 1] == rate^h` for `h` in
/// `1..=horizon`.
#[derive(Clone, Debug)]
pub struct DiscountLut {
    pub factors: Vec<i64>,
    pub discount_rate: i64,
}

impl DiscountLut {
    pub open spec fn wf(&self) -> bool {
        &&& 0 <= self.discount_rate <= FX_ONE
        &&& forall|i: int|
            0 <= i < self.factors@.len() ==> #[trigger] self.factors@[i] == rate_pow_spec(
                self.discount_rate as int,
                (i + 1) as nat,
            )
    }

    /// Out-of-range horizons read as zero; built horizons read `rate^h`.
    pub open spec fn get_spec(&self, horizon: int) -> int {
        if horizon < 1 || horizon > self.factors@.len() {
            0
        } else {
            rate_pow_spec(self.discount_rate as int, horizon as nat)
        }
    }

    /// Build one discount factor per horizon step, `rate^1 ..= rate^horizon`.
    pub fn new(discount_rate: i64, horizon: usize) -> (r: DiscountLut)
        requires
            0 <= discount_rate <= FX_ONE,
            horizon <= 4096,
        ensures
            r.wf(),
            r.discount_rate == discount_rate,
            r.factors@.len() == horizon,
    {
        let mut factors: Vec<i64> = Vec::new();
        let mut current: i64 = FX_ONE;
        let mut h: usize = 0;
        while h < horizon
            invariant
                h <= horizon,
                0 <= discount_rate <= FX_ONE,
                factors@.len() == h,
                current == rate_pow_spec(discount_rate as int, h as nat),
                0 <= current <= FX_ONE,
                forall|i: int|
                    0 <= i < h ==> #[trigger] factors@[i] == rate_pow_spec(
                        discount_rate as int,
                        (i + 1) as nat,
                    ),
            decreases horizon - h,
        {
            let next = fx_mul(current, discount_rate);
            proof {
                lemma_fx_mul_by_le_one(current as int, discount_rate as int);
            }
            current = next;
            factors.push(current);
            h = h + 1;
        }
        DiscountLut { factors, discount_rate }
    }

    /// Discount factor for a one-indexed horizon; zero outside the table.
    pub fn get(&self, horizon: usize) -> (r: i64)
        requires
            self.wf(),
        ensures
            r == self.get_spec(horizon as int),
            0 <= r <= FX_ONE,
    {
        if horizon == 0 || horizon > self.factors.len() {
            0
        } else {
            let r = self.factors[horizon - 1];
            proof {
                lemma_rate_pow_bounds(self.discount_rate as int, horizon as nat);
            }
            r
        }
    }

    /// All built discount factors, in horizon order.
    pub fn factors(&self) -> (r: &Vec<i64>)
        ensures
            r == &self.factors,
    {
        &self.factors
    }
}

/// The engine's default discounting: rate `0.95` over 16 steps; with the
/// rate fixed, well-formedness pins every factor to `rate^h`.
pub open spec fn discount_default_ok(d: DiscountLut) -> bool {
    &&& d.wf()
    &&& d.discount_rate == 950_000
    &&& d.factors@.len() == 16
}

impl Default for DiscountLut {
    /// The engine's default discounting: rate `0.95` over 16 steps.
    fn default() -> (r: DiscountLut)
        ensures
            discount_default_ok(r),
    {
        DiscountLut::new(950_000, 16)
    }
}

/// Distance-kernel table: `kernels[d] == (e^-decay)^d` for `d` in
/// `0..=max_distance`.
#[derive(Clone, Debug)]
pub struct DistanceKernelLut {
    pub kernels: Vec<i64>,
    pub max_distance: usize,
    pub decay_rate: i64,
}

impl DistanceKernelLut {
    /// The per-step decay factor `e^-decay`.
    pub open spec fn factor_spec(&self) -> int {
        fx_exp_neg_spec(self.decay_rate as int)
    }

    pub open spec fn wf(&self) -> bool {
        &&& 1 <= self.decay_rate
        &&& 0 <= self.factor_spec() < FX_ONE as int
        &&& self.kernels@.len() == self.max_distance + 1
        &&& forall|i: int|
            0 <= i < self.kernels@.len() ==> #[trigger] self.kernels@[i] == rate_pow_spec(
                self.factor_spec(),
                i as nat,
            )
    }

    /// Out-of-range distances read as zero; built distances read the decayed
    /// kernel.
    pub open spec fn get_spec(&self, distance: int) -> int {
        if distance > self.max_distance {
            0
        } else {
            rate_pow_spec(self.factor_spec(), distance as nat)
        }
    }

    /// Build kernels `1, c, c^2, ..., c^max_distance` with `c = e^-decay`.
    pub fn new(max_distance: usize, decay_rate: i64) -> (r: DistanceKernelLut)
        requires
            1 <= decay_rate,
            max_distance <= 4096,
        ensures
            r.wf(),
            r.max_distance == max_distance,
            r.decay_rate == decay_rate,
    {
        let c = fx_exp_neg(decay_rate);
        let mut kernels: Vec<i64> = Vec::new();
        let mut current: i64 = FX_ONE;
        kernels.push(current);
        let mut d: usize = 0;
        while d < max_distance
            invariant
                d <= max_distance,
                0 <= c < FX_ONE,
                c == fx_exp_neg_spec(decay_rate as int),
                kernels@.len() == d + 1,
                current == rate_pow_spec(c as int, d as nat),
                0 <= current <= FX_ONE,
                forall|i: int|
                    0 <= i < d + 1 ==> #[trigger] kernels@[i] == rate_pow_spec(c as int, i as nat),
            decreases max_distance - d,
        {
            let next = fx_mul(current, c);
            proof {
                lemma_fx_mul_by_le_one(current as int, c as int);
            }
            current = next;
            kernels.push(current);
            d = d + 1;
        }
        DistanceKernelLut { kernels, max_distance, decay_rate }
    }

    /// Kernel value for a distance bucket; zero beyond the built range.
    pub fn get(&self, distance: usize) -> (r: i64)
        requires
            self.wf(),
        ensures
            r == self.get_spec(distance as int),
            0 <= r <= FX_ONE,
            distance == 0 ==> r == FX_ONE,
    {
        if distance > self.max_distance {
            0
        } else {
            let r = self.kernels[distance];
            proof {
                lemma_rate_pow_bounds(self.factor_spec(), distance as nat);
            }
            r
        }
    }

    /// Each further distance bucket reads strictly less, until the kernel
    /// has decayed all the way to zero.
    pub proof fn lemma_strictly_decreasing(&self, d: int)
        requires
            self.wf(),
            0 <= d < self.max_distance,
        ensures
            self.get_spec(d + 1) < self.get_spec(d) || self.get_spec(d) == 0,
    {
        let c = self.factor_spec();
        lemma_rate_pow_bounds(c, d as nat);
        let k = rate_pow_spec(c, d as nat);
        if k > 0 {
            assert(k * c <= k * (FX_ONE as int - 1)) by (nonlinear_arith)
                requires
                    0 <= k,
                    c <= FX_ONE as int - 1,
            ;
            vstd::arithmetic::div_mod::lemma_div_is_ordered(
                k * c,
                k * (FX_ONE as int - 1),
                FX_ONE as int,
            );
            assert(k * (FX_ONE as int - 1) < FX_ONE as int * k) by (nonlinear_arith)
                requires
                    1 <= k,
            ;
            lemma_div_lt(k * (FX_ONE as int - 1), FX_ONE as int, k);
            vstd::arithmetic::mul::lemma_mul_nonnegative(k, c);
        }
    }
}

/// The engine's default kernel: decay `0.2` out to distance 20; with the
/// decay fixed, well-formedness pins every kernel to `(e^-decay)^d`.
pub open spec fn distance_kernel_default_ok(d: DistanceKernelLut) -> bool {
    &&& d.wf()
    &&& d.max_distance == 20
    &&& d.decay_rate == 200_000
}

impl Default for DistanceKernelLut {
    /// The engine's default kernel: decay `0.2` out to distance 20.
    fn default() -> (r: DistanceKernelLut)
        ensures
            distance_kernel_default_ok(r),
    {
        DistanceKernelLut::new(20, 200_000)
    }
}

/// The four lookup tables shared read-only by the whole engine.
#[derive(Clone, Debug)]
pub struct LookupTables {
    pub sigmoid: SigmoidLut,
    pub log_ratio: LogRatioLut,
    pub discount: DiscountLut,
    pub distance_kernel: DistanceKernelLut,
}

/// All four default tables at once, each with its contents pinned: any two
/// table sets satisfying this hold equal samples everywhere.
pub open spec fn default_tables_ok(l: LookupTables) -> bool {
    &&& sigmoid_default_ok(l.sigmoid)
    &&& log_ratio_default_ok(l.log_ratio)
    &&& discount_default_ok(l.discount)
    &&& distance_kernel_default_ok(l.distance_kernel)
}

impl LookupTables {
    pub open spec fn wf(&self) -> bool {
        &&& self.sigmoid.wf()
        &&& self.log_ratio.wf()
        &&& self.discount.wf()
        &&& self.distance_kernel.wf()
    }

    /// All four tables with the engine's default parameters.
    pub fn new() -> (r: LookupTables)
        ensures
            r.wf(),
            default_tables_ok(r),
    {
        LookupTables {
            sigmoid: SigmoidLut::default(),
            log_ratio: LogRatioLut::default(),
            discount: DiscountLut::default(),
            distance_kernel: DistanceKernelLut::default(),
        }
    }
}

impl Default for LookupTables {
    fn default() -> (r: LookupTables)
        ensures
            r.wf(),
            default_tables_ok(r),
    {
        LookupTables::new()
    }
}

} // verus!
