//! Scoring: pure functions from (country, action, world, tables) to a
//! six-channel score vector, and the weighted reduction to one scalar.
//!
//! Every scorer degrades to the all-zero vector on a missing reference
//! (unknown target, unknown edge, unknown tile) instead of failing, and
//! clamps its channels into the documented ranges: deltas in `[-32, 32]`
//! units, cost and risk in `[0, 16]` units.

use vstd::prelude::*;

use crate::actions::{Action, InvestSector, TechType};
use crate::country::{first_edge_idx, AdaptiveWeights, Country};
use crate::fixed::{
    clamp_spec, fx_clamp, fx_div, fx_div_spec, fx_mul, fx_mul_spec, fx_sat_add, fx_sat_add_spec,
    lemma_fx_div_le, lemma_fx_mul_by_le_one, lemma_fx_mul_comm, lemma_fx_mul_le, tdiv, tdiv_spec,
    FX_ONE, FX_STAT_CAP,
};
use crate::luts::LookupTables;
use crate::world::{
    first_country_idx, lemma_first_country_idx_char, norm_pair_spec, Alliance, WorldState,
};

verus! {

/// The six channels every action is scored on.
#[derive(Clone, Copy, Debug, PartialEq, Eq, Structural)]
pub struct ScoreComponents {
    pub delta_res: i64,
    pub delta_sec: i64,
    pub delta_growth: i64,
    pub delta_pos: i64,
    pub cost: i64,
    pub risk: i64,
}

/// Channel ranges: deltas within 32 units either way, cost and risk within
/// `[0, 16]` units.
pub open spec fn components_wf(c: ScoreComponents) -> bool {
    &&& -32 * FX_ONE <= c.delta_res <= 32 * FX_ONE
    &&& -32 * FX_ONE <= c.delta_sec <= 32 * FX_ONE
    &&& -32 * FX_ONE <= c.delta_growth <= 32 * FX_ONE
    &&& -32 * FX_ONE <= c.delta_pos <= 32 * FX_ONE
    &&& 0 <= c.cost <= 16 * FX_ONE
    &&& 0 <= c.risk <= 16 * FX_ONE
}

/// The all-zero score vector.
pub open spec fn zero_components_spec() -> ScoreComponents {
    ScoreComponents { delta_res: 0, delta_sec: 0, delta_growth: 0, delta_pos: 0, cost: 0, risk: 0 }
}

/// The weighted reduction of the six channels to one scalar.
pub open spec fn final_score_spec(c: ScoreComponents, w: AdaptiveWeights) -> int {
    w.alpha * c.delta_res + w.beta * c.delta_sec + w.gamma * c.delta_growth + w.delta * c.delta_pos
        - w.kappa * c.cost - w.rho * c.risk
}

proof fn lemma_weighted_term(w: int, v: int, cap: int)
    requires
        2 <= w <= 16,
        -cap <= v <= cap,
        0 <= cap,
    ensures
        -16 * cap <= w * v <= 16 * cap,
{
    assert(-16 * cap <= w * v <= 16 * cap) by (nonlinear_arith)
        requires
            2 <= w <= 16,
            -cap <= v <= cap,
            0 <= cap,
    ;
}

impl ScoreComponents {
    /// The all-zero score vector.
    pub fn zero() -> (r: ScoreComponents)
        ensures
            r == zero_components_spec(),
            components_wf(r),
    {
        ScoreComponents {
            delta_res: 0,
            delta_sec: 0,
            delta_growth: 0,
            delta_pos: 0,
            cost: 0,
            risk: 0,
        }
    }

    /// Reduce the six channels with the country's adaptive weights:
    /// `alpha*res + beta*sec + gamma*growth + delta*pos - kappa*cost -
    /// rho*risk`.
    pub fn final_score(&self, weights: &AdaptiveWeights) -> (r: i64)
        requires
            components_wf(*self),
            weights.wf(),
        ensures
            r == final_score_spec(*self, *weights),
    {
        proof {
            lemma_weighted_term(weights.alpha as int, self.delta_res as int, 32 * FX_ONE as int);
            lemma_weighted_term(weights.beta as int, self.delta_sec as int, 32 * FX_ONE as int);
            lemma_weighted_term(weights.gamma as int, self.delta_growth as int, 32 * FX_ONE as int);
            lemma_weighted_term(weights.delta as int, self.delta_pos as int, 32 * FX_ONE as int);
            lemma_weighted_term(weights.kappa as int, self.cost as int, 16 * FX_ONE as int);
            lemma_weighted_term(weights.rho as int, self.risk as int, 16 * FX_ONE as int);
        }
        weights.alpha * self.delta_res + weights.beta * self.delta_sec + weights.gamma
            * self.delta_growth + weights.delta * self.delta_pos - weights.kappa * self.cost
            - weights.rho * self.risk
    }
}

/// Net military pressure accumulated over the first `n` edges: allies
/// subtract their distance-discounted strength, others add it scaled by
/// hostility.  Each step saturates at the engine's stored-value cap.
pub open spec fn threat_upto_spec(
    c: Country,
    cs: Seq<Country>,
    als: Seq<Alliance>,
    l: LookupTables,
    n: int,
) -> int
    decreases n,
{
    if n <= 0 {
        0
    } else {
        let prev = threat_upto_spec(c, cs, als, l, n - 1);
        let e = c.edges@[n - 1];
        if first_country_idx(cs, e.neighbor_id) >= 0 {
            let nb = cs[first_country_idx(cs, e.neighbor_id)];
            let k = l.distance_kernel.get_spec(e.distance_bucket as int);
            let base = fx_mul_spec(k, nb.m_eff as int);
            if als.contains(norm_pair_spec(c.id, e.neighbor_id)) {
                fx_sat_add_spec(prev, -base)
            } else {
                fx_sat_add_spec(prev, fx_mul_spec(base, e.hostility as int))
            }
        } else {
            prev
        }
    }
}

/// The threat index over all of the country's edges.
pub open spec fn threat_index_spec(
    c: Country,
    cs: Seq<Country>,
    als: Seq<Alliance>,
    l: LookupTables,
) -> int {
    threat_upto_spec(c, cs, als, l, c.edges@.len() as int)
}

/// Compute a country's threat index from its edges and the current world.
pub fn compute_threat_index(country: &Country, world: &WorldState, luts: &LookupTables) -> (r: i64)
    requires
        country.wf(),
        world.wf(),
        luts.wf(),
    ensures
        r == threat_index_spec(*country, world.countries@, world.alliances@, *luts),
        -FX_STAT_CAP <= r <= FX_STAT_CAP,
{
    let mut threat: i64 = 0;
    let n = country.edges.len();
    let mut i: usize = 0;
    while i < n
        invariant
            i <= n,
            n == country.edges@.len(),
            country.wf(),
            world.wf(),
            luts.wf(),
            threat == threat_upto_spec(*country, world.countries@, world.alliances@, *luts, i as int),
            -FX_STAT_CAP <= threat <= FX_STAT_CAP,
        decreases n - i,
    {
        let e = country.edges[i];
        proof {
            assert(country.edges@[i as int].wf());
        }
        match world.get_country(e.neighbor_id) {
            Some(nb) => {
                proof {
                    lemma_first_country_idx_char(world.countries@, e.neighbor_id);
                    assert(nb.wf());
                }
                let k = luts.distance_kernel.get(e.distance_bucket);
                let base = fx_mul(k, nb.m_eff);
                proof {
                    lemma_fx_mul_comm(k as int, nb.m_eff as int);
                    lemma_fx_mul_by_le_one(nb.m_eff as int, k as int);
                }
                if world.are_allies(country.id, e.neighbor_id) {
                    threat = fx_sat_add(threat, -base);
                } else {
                    let hostile_term = fx_mul(base, e.hostility);
                    proof {
                        lemma_fx_mul_by_le_one(base as int, e.hostility as int);
                    }
                    threat = fx_sat_add(threat, hostile_term);
                }
            },
            None => {
            },
        }
        i = i + 1;
    }
    threat
}

/// Attack score: a force-ratio logit through the log-ratio and sigmoid
/// tables gives a win probability, which blends win-case and loss-case
/// payoffs; risk peaks at even odds, and cost sums casualties, occupation
/// upkeep, and a diplomatic penalty for attacking a friend.  A zero-strength
/// defender reads as an overwhelming force ratio at the table's upper
/// boundary.
pub open spec fn score_attack_spec(
    a: Country,
    defender_id: u32,
    cs: Seq<Country>,
    l: LookupTables,
) -> ScoreComponents {
    if first_country_idx(cs, defender_id) < 0 {
        zero_components_spec()
    } else {
        let d = cs[first_country_idx(cs, defender_id)];
        let ei = first_edge_idx(a.edges@, defender_id);
        if ei < 0 {
            zero_components_spec()
        } else {
            let e = a.edges@[ei];
            let g_penalty = FX_ONE as int + e.terrain_penalty as int;
            let denom = fx_mul_spec(d.m_eff as int, g_penalty);
            let fr = if denom == 0 {
                crate::luts::FX_DOMAIN_CAP as int
            } else {
                fx_div_spec(a.m_eff as int, denom)
            };
            let ln_fr = l.log_ratio.lookup_spec(fr);
            let inner = ln_fr - fx_mul_spec(300_000, e.fortification as int) - fx_mul_spec(
                200_000,
                e.terrain_penalty as int,
            ) - fx_mul_spec(100_000, e.distance_bucket as int * FX_ONE as int);
            let logit = fx_mul_spec(1_500_000, inner);
            let p = l.sigmoid.lookup_spec(logit);
            let q = FX_ONE as int - p;
            let v_win_res = fx_mul_spec(d.resources as int, 500_000);
            let v_win_sec = fx_mul_spec(fx_mul_spec(e.hostility as int, d.m_eff as int), 800_000);
            let v_win_pos = fx_mul_spec(d.prestige as int, 300_000);
            let v_loss_res = -fx_mul_spec(a.resources as int, 100_000);
            let v_loss_sec = -fx_mul_spec(d.m_eff as int, 200_000);
            let v_loss_pos = -fx_mul_spec(a.prestige as int, 100_000);
            let dr = fx_mul_spec(p, v_win_res) + fx_mul_spec(q, v_loss_res);
            let ds = fx_mul_spec(p, v_win_sec) + fx_mul_spec(q, v_loss_sec);
            let dp = fx_mul_spec(p, v_win_pos) + fx_mul_spec(q, v_loss_pos);
            let risk = fx_mul_spec(8 * FX_ONE as int, fx_mul_spec(p, q));
            let e_cas = fx_mul_spec(fx_mul_spec(a.m_eff as int, 100_000), 1_500_000 - p);
            let upkeep = fx_mul_spec(d.m_eff as int, 50_000);
            let rel_pos = if e.relations >= 0 {
                e.relations as int
            } else {
                0
            };
            let dipl = fx_mul_spec(rel_pos, 500_000);
            let cost = fx_mul_spec(500_000, e_cas) + fx_mul_spec(200_000, upkeep) + fx_mul_spec(
                300_000,
                dipl,
            );
            ScoreComponents {
                delta_res: clamp_spec(tdiv_spec(dr, 50), -32 * FX_ONE as int, 32 * FX_ONE as int)
                    as i64,
                delta_sec: clamp_spec(tdiv_spec(ds, 50), -32 * FX_ONE as int, 32 * FX_ONE as int)
                    as i64,
                delta_growth: 0,
                delta_pos: clamp_spec(tdiv_spec(dp, 20), -32 * FX_ONE as int, 32 * FX_ONE as int)
                    as i64,
                cost: clamp_spec(tdiv_spec(cost, 20), 0, 16 * FX_ONE as int) as i64,
                risk: clamp_spec(risk, 0, 16 * FX_ONE as int) as i64,
            }
        }
    }
}

/// Score an attack on `defender_id`; the all-zero vector when the defender
/// or the edge to it is unknown.
pub fn score_attack(
    attacker: &Country,
    defender_id: u32,
    world: &WorldState,
    luts: &LookupTables,
) -> (r: ScoreComponents)
    requires
        attacker.wf(),
        world.wf(),
        luts.wf(),
    ensures
        r == score_attack_spec(*attacker, defender_id, world.countries@, *luts),
        components_wf(r),
{
    let defender = match world.get_country(defender_id) {
        Some(d) => d,
        None => {
            return ScoreComponents::zero();
        },
    };
    proof {
        lemma_first_country_idx_char(world.countries@, defender_id);
        assert(defender.wf());
    }
    let edge = match attacker.get_edge(defender_id) {
        Some(e) => *e,
        None => {
            return ScoreComponents::zero();
        },
    };
    proof {
        assert(attacker.edges@[first_edge_idx(attacker.edges@, defender_id)].wf());
    }
    let g_penalty = FX_ONE + edge.terrain_penalty;
    let denom = fx_mul(defender.m_eff, g_penalty);
    proof {
        lemma_fx_mul_le(
            defender.m_eff as int,
            g_penalty as int,
            FX_STAT_CAP as int,
            FX_STAT_CAP as int + FX_ONE as int,
        );
        vstd::arithmetic::mul::lemma_mul_nonnegative(defender.m_eff as int, g_penalty as int);
        vstd::arithmetic::div_mod::lemma_div_pos_is_pos(
            defender.m_eff as int * g_penalty as int,
            FX_ONE as int,
        );
    }
    let fr: i64 = if denom == 0 {
        crate::luts::FX_DOMAIN_CAP
    } else {
        fx_div(attacker.m_eff, denom)
    };
    let ln_fr = luts.log_ratio.lookup(fr);
    let f_fort = fx_mul(300_000, edge.fortification);
    let f_terr = fx_mul(200_000, edge.terrain_penalty);
    let dist_fx: i64 = (edge.distance_bucket as i64) * FX_ONE;
    let f_dist = fx_mul(100_000, dist_fx);
    proof {
        lemma_fx_mul_le(300_000, edge.fortification as int, 300_000, FX_STAT_CAP as int);
        lemma_fx_mul_le(200_000, edge.terrain_penalty as int, 200_000, FX_STAT_CAP as int);
        lemma_fx_mul_le(100_000, dist_fx as int, 100_000, FX_STAT_CAP as int);
    }
    let inner = ln_fr - f_fort - f_terr - f_dist;
    let logit = fx_mul(1_500_000, inner);
    let p = luts.sigmoid.lookup(logit);
    let q = FX_ONE - p;
    let v_win_res = fx_mul(defender.resources, 500_000);
    let hostile_mass = fx_mul(edge.hostility, defender.m_eff);
    proof {
        lemma_fx_mul_le(edge.hostility as int, defender.m_eff as int, FX_ONE as int, FX_STAT_CAP as int);
    }
    let v_win_sec = fx_mul(hostile_mass, 800_000);
    let v_win_pos = fx_mul(defender.prestige, 300_000);
    let v_loss_res = -fx_mul(attacker.resources, 100_000);
    let v_loss_sec = -fx_mul(defender.m_eff, 200_000);
    let v_loss_pos = -fx_mul(attacker.prestige, 100_000);
    proof {
        lemma_fx_mul_le(defender.resources as int, 500_000, FX_STAT_CAP as int, 500_000);
        lemma_fx_mul_le(hostile_mass as int, 800_000, FX_STAT_CAP as int, 800_000);
        lemma_fx_mul_le(defender.prestige as int, 300_000, FX_STAT_CAP as int, 300_000);
        lemma_fx_mul_le(attacker.resources as int, 100_000, FX_STAT_CAP as int, 100_000);
        lemma_fx_mul_le(defender.m_eff as int, 200_000, FX_STAT_CAP as int, 200_000);
        lemma_fx_mul_le(attacker.prestige as int, 100_000, FX_STAT_CAP as int, 100_000);
    }
    let dr_win = fx_mul(p, v_win_res);
    let dr_loss = fx_mul(q, v_loss_res);
    let ds_win = fx_mul(p, v_win_sec);
    let ds_loss = fx_mul(q, v_loss_sec);
    let dp_win = fx_mul(p, v_win_pos);
    let dp_loss = fx_mul(q, v_loss_pos);
    proof {
        lemma_fx_mul_le(p as int, v_win_res as int, FX_ONE as int, 500_000_000_000);
        lemma_fx_mul_le(q as int, v_loss_res as int, FX_ONE as int, 100_000_000_000);
        lemma_fx_mul_le(p as int, v_win_sec as int, FX_ONE as int, 800_000_000_000);
        lemma_fx_mul_le(q as int, v_loss_sec as int, FX_ONE as int, 200_000_000_000);
        lemma_fx_mul_le(p as int, v_win_pos as int, FX_ONE as int, 300_000_000_000);
        lemma_fx_mul_le(q as int, v_loss_pos as int, FX_ONE as int, 100_000_000_000);
    }
    let dr = dr_win + dr_loss;
    let ds = ds_win + ds_loss;
    let dp = dp_win + dp_loss;
    let pq = fx_mul(p, q);
    proof {
        lemma_fx_mul_le(p as int, q as int, FX_ONE as int, FX_ONE as int);
    }
    let risk = fx_mul(8 * FX_ONE, pq);
    proof {
        lemma_fx_mul_le(8 * FX_ONE as int, pq as int, 8 * FX_ONE as int, FX_ONE as int);
    }
    let cas_base = fx_mul(attacker.m_eff, 100_000);
    proof {
        lemma_fx_mul_le(attacker.m_eff as int, 100_000, FX_STAT_CAP as int, 100_000);
    }
    let e_cas = fx_mul(cas_base, 1_500_000 - p);
    proof {
        lemma_fx_mul_le(cas_base as int, 1_500_000 - p as int, 100_000_000_000, 1_500_000);
    }
    let upkeep = fx_mul(defender.m_eff, 50_000);
    proof {
        lemma_fx_mul_le(defender.m_eff as int, 50_000, FX_STAT_CAP as int, 50_000);
    }
    let rel_pos: i64 = if edge.relations >= 0 {
        edge.relations
    } else {
        0
    };
    let dipl = fx_mul(rel_pos, 500_000);
    proof {
        lemma_fx_mul_le(rel_pos as int, 500_000, 100 * FX_ONE as int, 500_000);
    }
    let c_cas = fx_mul(500_000, e_cas);
    let c_upk = fx_mul(200_000, upkeep);
    let c_dip = fx_mul(300_000, dipl);
    proof {
        lemma_fx_mul_le(500_000, e_cas as int, 500_000, 150_000_000_000);
        lemma_fx_mul_le(200_000, upkeep as int, 200_000, 50_000_000_000);
        lemma_fx_mul_le(300_000, dipl as int, 300_000, 50_000_000);
    }
    let cost = c_cas + c_upk + c_dip;
    ScoreComponents {
        delta_res: fx_clamp(tdiv(dr, 50), -32 * FX_ONE, 32 * FX_ONE),
        delta_sec: fx_clamp(tdiv(ds, 50), -32 * FX_ONE, 32 * FX_ONE),
        delta_growth: 0,
        delta_pos: fx_clamp(tdiv(dp, 20), -32 * FX_ONE, 32 * FX_ONE),
        cost: fx_clamp(tdiv(cost, 20), 0, 16 * FX_ONE),
        risk: fx_clamp(risk, 0, 16 * FX_ONE),
    }
}

/// Compound growth factor `(1 + growth/100)^h`, truncating at every step
/// and saturating at the engine's stored-value cap.
pub open spec fn growth_pow_spec(gf: int, h: nat) -> int
    decreases h,
{
    if h == 0 {
        FX_ONE as int
    } else {
        let v = fx_mul_spec(growth_pow_spec(gf, (h - 1) as nat), gf);
        if v > FX_STAT_CAP as int {
            FX_STAT_CAP as int
        } else {
            v
        }
    }
}

/// Discounted projected yield over the first `h` horizon steps.
pub open spec fn invest_roi_upto(gf: int, boost: int, l: LookupTables, h: nat) -> int
    decreases h,
{
    if h == 0 {
        0
    } else {
        invest_roi_upto(gf, boost, l, (h - 1) as nat) + fx_mul_spec(
            fx_mul_spec(boost, l.discount.get_spec(h as int)),
            growth_pow_spec(gf, h),
        )
    }
}

/// The per-sector baseline yield of one investment, in units of yearly
/// output.
pub open spec fn invest_boost_spec(sector: InvestSector) -> int {
    match sector {
        InvestSector::Economy => 5 * FX_ONE as int,
        InvestSector::Infrastructure => 3 * FX_ONE as int,
        InvestSector::Technology => 4 * FX_ONE as int,
        InvestSector::Military => 2 * FX_ONE as int,
    }
}

/// The per-sector upfront outlay of one investment.
pub open spec fn invest_base_cost_spec(sector: InvestSector) -> int {
    match sector {
        InvestSector::Economy => 20 * FX_ONE as int,
        InvestSector::Infrastructure => 30 * FX_ONE as int,
        InvestSector::Technology => 25 * FX_ONE as int,
        InvestSector::Military => 15 * FX_ONE as int,
    }
}

/// Investment score: expected yield is the mean discounted, compounded
/// sector boost over an eight-step horizon; cost is the sector outlay
/// relative to available resources; risk is one unit.
pub open spec fn score_invest_spec(c: Country, sector: InvestSector, l: LookupTables) -> ScoreComponents {
    let boost = invest_boost_spec(sector);
    let gf = FX_ONE as int + c.growth as int / 100;
    let roi = invest_roi_upto(gf, boost, l, 8) / 8;
    let md = if c.resources < 10 * FX_ONE {
        10 * FX_ONE as int
    } else {
        c.resources as int
    };
    let cost0 = fx_div_spec(invest_base_cost_spec(sector), md);
    ScoreComponents {
        delta_res: 0,
        delta_sec: 0,
        delta_growth: clamp_spec(tdiv_spec(roi, 10), -32 * FX_ONE as int, 32 * FX_ONE as int)
            as i64,
        delta_pos: 0,
        cost: clamp_spec(cost0 * 10, 0, 16 * FX_ONE as int) as i64,
        risk: FX_ONE,
    }
}

/// Score an investment in one sector.
pub fn score_invest(country: &Country, sector: InvestSector, luts: &LookupTables) -> (r: ScoreComponents)
    requires
        country.wf(),
        luts.wf(),
    ensures
        r == score_invest_spec(*country, sector, *luts),
        components_wf(r),
{
    let boost: i64 = match sector {
        InvestSector::Economy => 5 * FX_ONE,
        InvestSector::Infrastructure => 3 * FX_ONE,
        InvestSector::Technology => 4 * FX_ONE,
        InvestSector::Military => 2 * FX_ONE,
    };
    let gf: i64 = FX_ONE + ((country.growth as u64) / 100) as i64;
    proof {
        vstd::arithmetic::div_mod::lemma_div_is_ordered_by_denominator(country.growth as int, 1, 100);
        vstd::arithmetic::div_mod::lemma_div_basics(country.growth as int);
        vstd::arithmetic::div_mod::lemma_div_pos_is_pos(country.growth as int, 100);
    }
    let mut roi: i64 = 0;
    let mut acc: i64 = FX_ONE;
    let mut h: usize = 1;
    while h <= 8
        invariant
            1 <= h <= 9,
            luts.wf(),
            0 <= gf <= FX_ONE as int + FX_STAT_CAP as int,
            2 * FX_ONE <= boost <= 5 * FX_ONE,
            boost == invest_boost_spec(sector),
            gf as int == FX_ONE as int + country.growth as int / 100,
            acc == growth_pow_spec(gf as int, (h - 1) as nat),
            0 <= acc <= FX_STAT_CAP,
            roi == invest_roi_upto(gf as int, boost as int, *luts, (h - 1) as nat),
            0 <= roi <= (h - 1) * 5_000_000_000_000,
        decreases 9 - h,
    {
        let next_raw = fx_mul(acc, gf);
        proof {
            lemma_fx_mul_le(
                acc as int,
                gf as int,
                FX_STAT_CAP as int,
                FX_ONE as int + FX_STAT_CAP as int,
            );
            vstd::arithmetic::mul::lemma_mul_nonnegative(acc as int, gf as int);
            vstd::arithmetic::div_mod::lemma_div_pos_is_pos(
                acc as int * gf as int,
                FX_ONE as int,
            );
        }
        let next = if next_raw > FX_STAT_CAP {
            FX_STAT_CAP
        } else {
            next_raw
        };
        acc = next;
        let disc = luts.discount.get(h);
        let bd = fx_mul(boost, disc);
        proof {
            lemma_fx_mul_le(boost as int, disc as int, 5 * FX_ONE as int, FX_ONE as int);
            vstd::arithmetic::mul::lemma_mul_nonnegative(
                crate::fixed::fx_abs(boost as int),
                crate::fixed::fx_abs(disc as int),
            );
        }
        let term = fx_mul(bd, acc);
        proof {
            lemma_fx_mul_le(bd as int, acc as int, 5 * FX_ONE as int, FX_STAT_CAP as int);
            assert(term >= 0) by {
                vstd::arithmetic::mul::lemma_mul_nonnegative(
                    crate::fixed::fx_abs(bd as int),
                    crate::fixed::fx_abs(acc as int),
                );
                vstd::arithmetic::div_mod::lemma_div_pos_is_pos(
                    crate::fixed::fx_abs(bd as int) * crate::fixed::fx_abs(acc as int),
                    FX_ONE as int,
                );
            };
        }
        roi = roi + term;
        h = h + 1;
    }
    let roi_mean: i64 = ((roi as u64) / 8) as i64;
    proof {
        vstd::arithmetic::div_mod::lemma_div_is_ordered_by_denominator(roi as int, 1, 8);
        vstd::arithmetic::div_mod::lemma_div_basics(roi as int);
        vstd::arithmetic::div_mod::lemma_div_pos_is_pos(roi as int, 8);
        assert(roi_mean as int == tdiv_spec(roi as int, 8));
        assert(invest_roi_upto(gf as int, boost as int, *luts, 8) / 8 == tdiv_spec(roi as int, 8));
    }
    let base_cost: i64 = match sector {
        InvestSector::Economy => 20 * FX_ONE,
        InvestSector::Infrastructure => 30 * FX_ONE,
        InvestSector::Technology => 25 * FX_ONE,
        InvestSector::Military => 15 * FX_ONE,
    };
    let md: i64 = if country.resources < 10 * FX_ONE {
        10 * FX_ONE
    } else {
        country.resources
    };
    let cost0 = fx_div(base_cost, md);
    proof {
        lemma_fx_div_le(base_cost as int, md as int, 3);
    }
    ScoreComponents {
        delta_res: 0,
        delta_sec: 0,
        delta_growth: fx_clamp(tdiv(roi_mean, 10), -32 * FX_ONE, 32 * FX_ONE),
        delta_pos: 0,
        cost: fx_clamp(cost0 * 10, 0, 16 * FX_ONE),
        risk: FX_ONE,
    }
}

/// The fixed multiplier a technology branch applies to its marginal value.
pub open spec fn research_gain_spec(c: Country, tech: TechType) -> int {
    match tech {
        TechType::MilitaryAdvancement => fx_mul_spec(c.marginal_values.military as int, 1_500_000),
        TechType::EconomicEfficiency => fx_mul_spec(c.marginal_values.economy as int, 1_800_000),
        TechType::DiplomaticInfluence => fx_mul_spec(c.marginal_values.diplomacy as int, 1_200_000),
        TechType::TechnologicalBreakthrough => fx_mul_spec(c.marginal_values.tech as int, 2_000_000),
    }
}

/// The research-point outlay of one technology branch.
pub open spec fn research_cost_spec(tech: TechType) -> int {
    match tech {
        TechType::MilitaryAdvancement => 30 * FX_ONE as int,
        TechType::EconomicEfficiency => 25 * FX_ONE as int,
        TechType::DiplomaticInfluence => 20 * FX_ONE as int,
        TechType::TechnologicalBreakthrough => 40 * FX_ONE as int,
    }
}

/// Research score: growth delta is the branch's scaled marginal value, cost
/// is the research points relative to resources, and risk is exactly zero.
pub open spec fn score_research_spec(c: Country, tech: TechType) -> ScoreComponents {
    let gain = research_gain_spec(c, tech);
    let md = if c.resources < 10 * FX_ONE {
        10 * FX_ONE as int
    } else {
        c.resources as int
    };
    let cost0 = fx_div_spec(research_cost_spec(tech), md);
    ScoreComponents {
        delta_res: 0,
        delta_sec: 0,
        delta_growth: clamp_spec(tdiv_spec(gain, 5), -32 * FX_ONE as int, 32 * FX_ONE as int)
            as i64,
        delta_pos: 0,
        cost: clamp_spec(cost0 * 10, 0, 16 * FX_ONE as int) as i64,
        risk: 0,
    }
}

/// Score researching one technology branch.
pub fn score_research(country: &Country, tech: TechType) -> (r: ScoreComponents)
    requires
        country.wf(),
    ensures
        r == score_research_spec(*country, tech),
        components_wf(r),
{
    let mv = country.marginal_values;
    let gain: i64 = match tech {
        TechType::MilitaryAdvancement => fx_mul(mv.military, 1_500_000),
        TechType::EconomicEfficiency => fx_mul(mv.economy, 1_800_000),
        TechType::DiplomaticInfluence => fx_mul(mv.diplomacy, 1_200_000),
        TechType::TechnologicalBreakthrough => fx_mul(mv.tech, 2_000_000),
    };
    proof {
        lemma_fx_mul_le(mv.military as int, 1_500_000, 10 * FX_ONE as int, 1_500_000);
        lemma_fx_mul_le(mv.economy as int, 1_800_000, 10 * FX_ONE as int, 1_800_000);
        lemma_fx_mul_le(mv.diplomacy as int, 1_200_000, 10 * FX_ONE as int, 1_200_000);
        lemma_fx_mul_le(mv.tech as int, 2_000_000, 10 * FX_ONE as int, 2_000_000);
    }
    let rp_cost: i64 = match tech {
        TechType::MilitaryAdvancement => 30 * FX_ONE,
        TechType::EconomicEfficiency => 25 * FX_ONE,
        TechType::DiplomaticInfluence => 20 * FX_ONE,
        TechType::TechnologicalBreakthrough => 40 * FX_ONE,
    };
    let md: i64 = if country.resources < 10 * FX_ONE {
        10 * FX_ONE
    } else {
        country.resources
    };
    let cost0 = fx_div(rp_cost, md);
    proof {
        lemma_fx_div_le(rp_cost as int, md as int, 4);
    }
    ScoreComponents {
        delta_res: 0,
        delta_sec: 0,
        delta_growth: fx_clamp(tdiv(gain, 5), -32 * FX_ONE, 32 * FX_ONE),
        delta_pos: 0,
        cost: fx_clamp(cost0 * 10, 0, 16 * FX_ONE),
        risk: 0,
    }
}

/// The three kinds of diplomatic proposal.
#[derive(Clone, Copy, Debug, PartialEq, Eq, Structural)]
pub enum DiplomacyType {
    Ally,
    Pact,
    Trade,
}

/// What the proposer looks like to a prospective partner: a blend of its
/// military strength and prestige.
pub open spec fn alliance_benefit_spec(proposer: Country) -> int {
    fx_mul_spec(proposer.m_eff as int, 200_000) + fx_mul_spec(proposer.prestige as int, 100_000)
}

fn estimate_alliance_benefit(_target: &Country, proposer: &Country) -> (r: i64)
    requires
        proposer.wf(),
    ensures
        r == alliance_benefit_spec(*proposer),
        0 <= r <= 300_000_000_000,
{
    let m = fx_mul(proposer.m_eff, 200_000);
    let p = fx_mul(proposer.prestige, 100_000);
    proof {
        lemma_fx_mul_le(proposer.m_eff as int, 200_000, FX_STAT_CAP as int, 200_000);
        lemma_fx_mul_le(proposer.prestige as int, 100_000, FX_STAT_CAP as int, 100_000);
        vstd::arithmetic::mul::lemma_mul_nonnegative(proposer.m_eff as int, 200_000);
        vstd::arithmetic::div_mod::lemma_div_pos_is_pos(
            proposer.m_eff as int * 200_000,
            FX_ONE as int,
        );
        vstd::arithmetic::mul::lemma_mul_nonnegative(proposer.prestige as int, 100_000);
        vstd::arithmetic::div_mod::lemma_div_pos_is_pos(
            proposer.prestige as int * 100_000,
            FX_ONE as int,
        );
    }
    m + p
}

/// Diplomacy score: the target's acceptance probability comes from a
/// sigmoid of the proposer's appeal; each proposal kind then offers its own
/// raw benefit profile, scaled by that probability.
pub open spec fn score_diplomacy_spec(
    c: Country,
    target_id: u32,
    action_type: DiplomacyType,
    cs: Seq<Country>,
    l: LookupTables,
) -> ScoreComponents {
    if first_country_idx(cs, target_id) < 0 {
        zero_components_spec()
    } else if first_edge_idx(c.edges@, target_id) < 0 {
        zero_components_spec()
    } else {
        let t = cs[first_country_idx(cs, target_id)];
        let benefit = alliance_benefit_spec(c);
        let logit = fx_mul_spec(500_000, benefit);
        let p = l.sigmoid.lookup_spec(logit);
        let raw_sec = match action_type {
            DiplomacyType::Ally => fx_mul_spec(t.m_eff as int, 500_000),
            DiplomacyType::Pact => fx_mul_spec(t.m_eff as int, 300_000),
            DiplomacyType::Trade => 0,
        };
        let raw_pos = match action_type {
            DiplomacyType::Ally => 5 * FX_ONE as int,
            DiplomacyType::Pact => 3 * FX_ONE as int,
            DiplomacyType::Trade => 0,
        };
        let raw_res = match action_type {
            DiplomacyType::Trade => fx_mul_spec(t.gdp as int, 100_000),
            _ => 0,
        };
        let raw_growth = match action_type {
            DiplomacyType::Trade => 2 * FX_ONE as int,
            _ => 0,
        };
        let sec = fx_mul_spec(raw_sec, p);
        let pos = fx_mul_spec(raw_pos, p);
        let res = fx_mul_spec(raw_res, p);
        let growth = fx_mul_spec(raw_growth, p);
        ScoreComponents {
            delta_res: clamp_spec(tdiv_spec(res, 50), -32 * FX_ONE as int, 32 * FX_ONE as int)
                as i64,
            delta_sec: clamp_spec(tdiv_spec(sec, 50), -32 * FX_ONE as int, 32 * FX_ONE as int)
                as i64,
            delta_growth: clamp_spec(tdiv_spec(growth, 5), -32 * FX_ONE as int, 32 * FX_ONE as int)
                as i64,
            delta_pos: clamp_spec(tdiv_spec(pos, 5), -32 * FX_ONE as int, 32 * FX_ONE as int)
                as i64,
            cost: clamp_spec(5 * FX_ONE as int, 0, 16 * FX_ONE as int) as i64,
            risk: (2 * FX_ONE as int) as i64,
        }
    }
}

/// Score a diplomatic proposal toward `target_id`.
pub fn score_diplomacy(
    country: &Country,
    target_id: u32,
    action_type: DiplomacyType,
    world: &WorldState,
    luts: &LookupTables,
) -> (r: ScoreComponents)
    requires
        country.wf(),
        world.wf(),
        luts.wf(),
    ensures
        r == score_diplomacy_spec(*country, target_id, action_type, world.countries@, *luts),
        components_wf(r),
{
    let target = match world.get_country(target_id) {
        Some(t) => t,
        None => {
            return ScoreComponents::zero();
        },
    };
    proof {
        lemma_first_country_idx_char(world.countries@, target_id);
        assert(target.wf());
    }
    match country.get_edge(target_id) {
        Some(_) => {
        },
        None => {
            return ScoreComponents::zero();
        },
    }
    let benefit = estimate_alliance_benefit(target, country);
    let logit = fx_mul(500_000, benefit);
    proof {
        lemma_fx_mul_le(500_000, benefit as int, 500_000, 300_000_000_000);
    }
    let p = luts.sigmoid.lookup(logit);
    let raw_sec: i64 = match action_type {
        DiplomacyType::Ally => fx_mul(target.m_eff, 500_000),
        DiplomacyType::Pact => fx_mul(target.m_eff, 300_000),
        DiplomacyType::Trade => 0,
    };
    let raw_pos: i64 = match action_type {
        DiplomacyType::Ally => 5 * FX_ONE,
        DiplomacyType::Pact => 3 * FX_ONE,
        DiplomacyType::Trade => 0,
    };
    let raw_res: i64 = match action_type {
        DiplomacyType::Trade => fx_mul(target.gdp, 100_000),
        _ => 0,
    };
    let raw_growth: i64 = match action_type {
        DiplomacyType::Trade => 2 * FX_ONE,
        _ => 0,
    };
    proof {
        lemma_fx_mul_le(target.m_eff as int, 500_000, FX_STAT_CAP as int, 500_000);
        lemma_fx_mul_le(target.m_eff as int, 300_000, FX_STAT_CAP as int, 300_000);
        lemma_fx_mul_le(target.gdp as int, 100_000, FX_STAT_CAP as int, 100_000);
    }
    let sec = fx_mul(raw_sec, p);
    let pos = fx_mul(raw_pos, p);
    let res = fx_mul(raw_res, p);
    let growth = fx_mul(raw_growth, p);
    proof {
        lemma_fx_mul_le(raw_sec as int, p as int, 500_000_000_000, FX_ONE as int);
        lemma_fx_mul_le(raw_pos as int, p as int, 5 * FX_ONE as int, FX_ONE as int);
        lemma_fx_mul_le(raw_res as int, p as int, 100_000_000_000, FX_ONE as int);
        lemma_fx_mul_le(raw_growth as int, p as int, 2 * FX_ONE as int, FX_ONE as int);
    }
    ScoreComponents {
        delta_res: fx_clamp(tdiv(res, 50), -32 * FX_ONE, 32 * FX_ONE),
        delta_sec: fx_clamp(tdiv(sec, 50), -32 * FX_ONE, 32 * FX_ONE),
        delta_growth: fx_clamp(tdiv(growth, 5), -32 * FX_ONE, 32 * FX_ONE),
        delta_pos: fx_clamp(tdiv(pos, 5), -32 * FX_ONE, 32 * FX_ONE),
        cost: fx_clamp(5 * FX_ONE, 0, 16 * FX_ONE),
        risk: 2 * FX_ONE,
    }
}

/// Fortify score: security improves with the tile's threat gradient; fixed
/// small cost and risk.
pub open spec fn score_fortify_spec(c: Country, tile_id: u32) -> ScoreComponents {
    let ti = crate::country::first_tile_idx(c.border_tiles@, tile_id);
    if ti < 0 {
        zero_components_spec()
    } else {
        let tile = c.border_tiles@[ti];
        let sec = fx_mul_spec(tile.threat_gradient as int, 500_000);
        ScoreComponents {
            delta_res: 0,
            delta_sec: clamp_spec(tdiv_spec(sec, 10), -32 * FX_ONE as int, 32 * FX_ONE as int)
                as i64,
            delta_growth: 0,
            delta_pos: 0,
            cost: (3 * FX_ONE as int) as i64,
            risk: 500_000,
        }
    }
}

/// Move score: both security and position follow the tile's threat
/// gradient; fixed small cost and risk.
pub open spec fn score_move_spec(c: Country, tile_id: u32) -> ScoreComponents {
    let ti = crate::country::first_tile_idx(c.border_tiles@, tile_id);
    if ti < 0 {
        zero_components_spec()
    } else {
        let tile = c.border_tiles@[ti];
        let sec = fx_mul_spec(tile.threat_gradient as int, 300_000);
        let pos = fx_mul_spec(tile.threat_gradient as int, 200_000);
        ScoreComponents {
            delta_res: 0,
            delta_sec: clamp_spec(tdiv_spec(sec, 10), -32 * FX_ONE as int, 32 * FX_ONE as int)
                as i64,
            delta_growth: 0,
            delta_pos: clamp_spec(tdiv_spec(pos, 10), -32 * FX_ONE as int, 32 * FX_ONE as int)
                as i64,
            cost: (2 * FX_ONE as int) as i64,
            risk: FX_ONE,
        }
    }
}

/// Find a border tile by id, with the first-match index pinned.
fn find_tile(country: &Country, tile_id: u32) -> (r: Option<&crate::country::BorderTile>)
    ensures
        match r {
            Some(t) => {
                &&& 0 <= crate::country::first_tile_idx(country.border_tiles@, tile_id)
                    < country.border_tiles@.len()
                &&& *t == country.border_tiles@[crate::country::first_tile_idx(
                    country.border_tiles@,
                    tile_id,
                )]
            },
            None => crate::country::first_tile_idx(country.border_tiles@, tile_id) == -1,
        },
{
    let n = country.border_tiles.len();
    let mut i: usize = 0;
    while i < n
        invariant
            i <= n,
            n == country.border_tiles@.len(),
            forall|j: int| 0 <= j < i ==> (#[trigger] country.border_tiles@[j]).id != tile_id,
        decreases n - i,
    {
        if country.border_tiles[i].id == tile_id {
            proof {
                crate::country::lemma_first_tile_idx(country.border_tiles@, tile_id, i as int);
            }
            return Some(&country.border_tiles[i]);
        }
        i = i + 1;
    }
    proof {
        crate::country::lemma_first_tile_idx(country.border_tiles@, tile_id, n as int);
    }
    None
}

/// Score fortifying one border tile.
pub fn score_fortify(country: &Country, tile_id: u32) -> (r: ScoreComponents)
    requires
        country.wf(),
    ensures
        r == score_fortify_spec(*country, tile_id),
        components_wf(r),
{
    let tile = match find_tile(country, tile_id) {
        Some(t) => *t,
        None => {
            return ScoreComponents::zero();
        },
    };
    proof {
        assert(country.border_tiles@[crate::country::first_tile_idx(
            country.border_tiles@,
            tile_id,
        )].wf());
    }
    let sec = fx_mul(tile.threat_gradient, 500_000);
    proof {
        lemma_fx_mul_le(tile.threat_gradient as int, 500_000, FX_STAT_CAP as int, 500_000);
    }
    ScoreComponents {
        delta_res: 0,
        delta_sec: fx_clamp(tdiv(sec, 10), -32 * FX_ONE, 32 * FX_ONE),
        delta_growth: 0,
        delta_pos: 0,
        cost: 3 * FX_ONE,
        risk: 500_000,
    }
}

/// Score moving troops toward one border tile.
pub fn score_move(country: &Country, tile_id: u32) -> (r: ScoreComponents)
    requires
        country.wf(),
    ensures
        r == score_move_spec(*country, tile_id),
        components_wf(r),
{
    let tile = match find_tile(country, tile_id) {
        Some(t) => *t,
        None => {
            return ScoreComponents::zero();
        },
    };
    proof {
        assert(country.border_tiles@[crate::country::first_tile_idx(
            country.border_tiles@,
            tile_id,
        )].wf());
    }
    let sec = fx_mul(tile.threat_gradient, 300_000);
    let pos = fx_mul(tile.threat_gradient, 200_000);
    proof {
        lemma_fx_mul_le(tile.threat_gradient as int, 300_000, FX_STAT_CAP as int, 300_000);
        lemma_fx_mul_le(tile.threat_gradient as int, 200_000, FX_STAT_CAP as int, 200_000);
    }
    ScoreComponents {
        delta_res: 0,
        delta_sec: fx_clamp(tdiv(sec, 10), -32 * FX_ONE, 32 * FX_ONE),
        delta_growth: 0,
        delta_pos: fx_clamp(tdiv(pos, 10), -32 * FX_ONE, 32 * FX_ONE),
        cost: 2 * FX_ONE,
        risk: FX_ONE,
    }
}

/// Total dispatch from any action to its scorer; `Pass` scores zero.
pub open spec fn score_action_spec(
    c: Country,
    a: Action,
    cs: Seq<Country>,
    l: LookupTables,
) -> ScoreComponents {
    match a {
        Action::Attack { target_id } => score_attack_spec(c, target_id, cs, l),
        Action::Invest { sector } => score_invest_spec(c, sector, l),
        Action::Research { tech } => score_research_spec(c, tech),
        Action::Ally { target_id } => score_diplomacy_spec(c, target_id, DiplomacyType::Ally, cs, l),
        Action::Pact { target_id } => score_diplomacy_spec(c, target_id, DiplomacyType::Pact, cs, l),
        Action::Trade { target_id } => score_diplomacy_spec(
            c,
            target_id,
            DiplomacyType::Trade,
            cs,
            l,
        ),
        Action::Fortify { tile_id } => score_fortify_spec(c, tile_id),
        Action::Move { tile_id } => score_move_spec(c, tile_id),
        Action::Pass => zero_components_spec(),
    }
}

/// Score any action against the current world.
pub fn score_action(
    country: &Country,
    action: &Action,
    world: &WorldState,
    luts: &LookupTables,
) -> (r: ScoreComponents)
    requires
        country.wf(),
        world.wf(),
        luts.wf(),
    ensures
        r == score_action_spec(*country, *action, world.countries@, *luts),
        components_wf(r),
{
    match action {
        Action::Attack { target_id } => score_attack(country, *target_id, world, luts),
        Action::Invest { sector } => score_invest(country, *sector, luts),
        Action::Research { tech } => score_research(country, *tech),
        Action::Ally { target_id } => score_diplomacy(
            country,
            *target_id,
            DiplomacyType::Ally,
            world,
            luts,
        ),
        Action::Pact { target_id } => score_diplomacy(
            country,
            *target_id,
            DiplomacyType::Pact,
            world,
            luts,
        ),
        Action::Trade { target_id } => score_diplomacy(
            country,
            *target_id,
            DiplomacyType::Trade,
            world,
            luts,
        ),
        Action::Fortify { tile_id } => score_fortify(country, *tile_id),
        Action::Move { tile_id } => score_move(country, *tile_id),
        Action::Pass => ScoreComponents::zero(),
    }
}

/// The six-channel vectors of a whole candidate list.
pub open spec fn batch_components_spec(
    c: Country,
    acts: Seq<Action>,
    cs: Seq<Country>,
    l: LookupTables,
) -> Seq<ScoreComponents> {
    Seq::new(acts.len(), |i: int| score_action_spec(c, acts[i], cs, l))
}

/// The scalar scores of a whole candidate list under the country's weights.
pub open spec fn batch_scores_spec(
    c: Country,
    acts: Seq<Action>,
    cs: Seq<Country>,
    l: LookupTables,
) -> Seq<int> {
    Seq::new(acts.len(), |i: int| final_score_spec(score_action_spec(c, acts[i], cs, l), c.weights))
}

/// Batched scoring output: per-action components and final scalars.
#[derive(Clone, Debug)]
pub struct BatchScoreResult {
    pub components: Vec<ScoreComponents>,
    pub final_scores: Vec<i64>,
}

impl BatchScoreResult {
    pub fn new(components: Vec<ScoreComponents>, final_scores: Vec<i64>) -> (r: BatchScoreResult)
        ensures
            r.components == components,
            r.final_scores == final_scores,
    {
        BatchScoreResult { components, final_scores }
    }
}

/// Score a whole candidate list at once.  The batched reduction computes,
/// for every position, exactly the scalar that `final_score` computes on
/// that position's components.
pub fn score_actions_batch(
    country: &Country,
    actions: &Vec<Action>,
    world: &WorldState,
    luts: &LookupTables,
) -> (r: BatchScoreResult)
    requires
        country.wf(),
        world.wf(),
        luts.wf(),
    ensures
        r.components@.len() == actions@.len(),
        r.final_scores@.len() == actions@.len(),
        forall|i: int|
            0 <= i < actions@.len() ==> #[trigger] r.components@[i] == score_action_spec(
                *country,
                actions@[i],
                world.countries@,
                *luts,
            ),
        forall|i: int|
            0 <= i < actions@.len() ==> #[trigger] r.final_scores@[i] == final_score_spec(
                r.components@[i],
                country.weights,
            ),
        forall|i: int| 0 <= i < actions@.len() ==> components_wf(#[trigger] r.components@[i]),
{
    let n = actions.len();
    let mut components: Vec<ScoreComponents> = Vec::new();
    let mut i: usize = 0;
    while i < n
        invariant
            i <= n,
            n == actions@.len(),
            country.wf(),
            world.wf(),
            luts.wf(),
            components@.len() == i,
            forall|j: int|
                0 <= j < i ==> #[trigger] components@[j] == score_action_spec(
                    *country,
                    actions@[j],
                    world.countries@,
                    *luts,
                ),
            forall|j: int| 0 <= j < i ==> components_wf(#[trigger] components@[j]),
        decreases n - i,
    {
        let comp = score_action(country, &actions[i], world, luts);
        components.push(comp);
        i = i + 1;
    }
    let mut final_scores: Vec<i64> = Vec::new();
    let mut j: usize = 0;
    while j < n
        invariant
            j <= n,
            n == components@.len(),
            country.wf(),
            forall|t: int| 0 <= t < n ==> components_wf(#[trigger] components@[t]),
            final_scores@.len() == j,
            forall|t: int|
                0 <= t < j ==> #[trigger] final_scores@[t] == final_score_spec(
                    components@[t],
                    country.weights,
                ),
        decreases n - j,
    {
        let s = components[j].final_score(&country.weights);
        final_scores.push(s);
        j = j + 1;
    }
    BatchScoreResult { components, final_scores }
}

/// Growing the alliance set never raises a threat index: an edge whose
/// neighbor becomes an ally swaps a non-negative hostility term for a
/// non-positive one, and every other edge contributes as before.
pub proof fn lemma_alliance_reduces_threat(
    c: Country,
    cs: Seq<Country>,
    als: Seq<Alliance>,
    als2: Seq<Alliance>,
    l: LookupTables,
)
    requires
        c.wf(),
        forall|i: int| 0 <= i < cs.len() ==> (#[trigger] cs[i]).wf(),
        l.distance_kernel.wf(),
        forall|p: Alliance| als.contains(p) ==> als2.contains(p),
    ensures
        threat_index_spec(c, cs, als2, l) <= threat_index_spec(c, cs, als, l),
{
    lemma_threat_upto_monotone(c, cs, als, als2, l, c.edges@.len() as int);
}

proof fn lemma_threat_upto_monotone(
    c: Country,
    cs: Seq<Country>,
    als: Seq<Alliance>,
    als2: Seq<Alliance>,
    l: LookupTables,
    n: int,
)
    requires
        c.wf(),
        forall|i: int| 0 <= i < cs.len() ==> (#[trigger] cs[i]).wf(),
        l.distance_kernel.wf(),
        forall|p: Alliance| als.contains(p) ==> als2.contains(p),
        n <= c.edges@.len(),
    ensures
        threat_upto_spec(c, cs, als2, l, n) <= threat_upto_spec(c, cs, als, l, n),
    decreases n,
{
    if n > 0 {
        lemma_threat_upto_monotone(c, cs, als, als2, l, n - 1);
        let e = c.edges@[n - 1];
        assert(c.edges@[n - 1].wf());
        if first_country_idx(cs, e.neighbor_id) >= 0 {
            lemma_first_country_idx_char(cs, e.neighbor_id);
            let nb = cs[first_country_idx(cs, e.neighbor_id)];
            assert(nb.wf());
            let k = l.distance_kernel.get_spec(e.distance_bucket as int);
            crate::luts::lemma_rate_pow_bounds(
                l.distance_kernel.factor_spec(),
                e.distance_bucket as nat,
            );
            assert(0 <= k);
            let base = fx_mul_spec(k, nb.m_eff as int);
            vstd::arithmetic::mul::lemma_mul_nonnegative(k, nb.m_eff as int);
            vstd::arithmetic::div_mod::lemma_div_pos_is_pos(k * nb.m_eff as int, FX_ONE as int);
            assert(0 <= base);
            let hostile = fx_mul_spec(base, e.hostility as int);
            vstd::arithmetic::mul::lemma_mul_nonnegative(base, e.hostility as int);
            vstd::arithmetic::div_mod::lemma_div_pos_is_pos(
                base * e.hostility as int,
                FX_ONE as int,
            );
            assert(0 <= hostile);
            let p = crate::world::norm_pair_spec(c.id, e.neighbor_id);
            if als2.contains(p) && !als.contains(p) {
                assert(-base <= hostile);
            }
        }
    }
}

/// Batch scoring equivalence: every batched scalar equals the per-candidate
/// scalar computed individually from the same components and weights.
pub proof fn lemma_batch_scoring_equivalence(
    c: Country,
    acts: Seq<Action>,
    cs: Seq<Country>,
    l: LookupTables,
)
    ensures
        batch_scores_spec(c, acts, cs, l).len() == acts.len(),
        forall|i: int|
            0 <= i < acts.len() ==> #[trigger] batch_scores_spec(c, acts, cs, l)[i]
                == final_score_spec(batch_components_spec(c, acts, cs, l)[i], c.weights),
{
}

} // verus!
