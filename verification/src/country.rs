//! Per-country state: scalar stats, adaptive weights, marginal values,
//! directed edges to neighbors, and border tiles.

use vstd::prelude::*;

use crate::fixed::{
    clamp_spec, fx_clamp, fx_div, fx_div_spec, fx_mul, fx_mul_spec, fx_round, fx_round_spec,
    lemma_div_lt, lemma_fx_mul_le, tdiv, tdiv_spec, FX_ONE, FX_STAT_CAP,
};

verus! {

/// Six adaptive coefficients that turn a six-channel score into one scalar.
/// Every update clamps each into `[2, 16]`.
#[derive(Clone, Copy, Debug, PartialEq, Eq, Structural)]
pub struct AdaptiveWeights {
    pub alpha: i64,
    pub beta: i64,
    pub gamma: i64,
    pub delta: i64,
    pub kappa: i64,
    pub rho: i64,
}

/// Resource weight: rises as resources fall short of a target of 1000 units.
pub open spec fn alpha_spec(resources: int) -> int {
    clamp_spec(fx_round_spec(8 * FX_ONE as int + tdiv_spec(1000 * FX_ONE as int - resources, 250)), 2, 16)
}

/// Security weight: rises with the normalized threat index `TI / (1 + TI)`.
/// The normalized value saturates at ten units either way, far past the
/// points where the clamp to `[2, 16]` already pegs the weight, and a
/// degenerate `TI == -1` reads as the lower bound.
pub open spec fn beta_spec(threat_index: int) -> int {
    if threat_index == -(FX_ONE as int) {
        2
    } else {
        let t = clamp_spec(
            fx_div_spec(threat_index, FX_ONE as int + threat_index),
            -10 * FX_ONE as int,
            10 * FX_ONE as int,
        );
        clamp_spec(fx_round_spec(8 * FX_ONE as int + fx_mul_spec(6_400_000, t)), 2, 16)
    }
}

/// Growth weight: rises as growth falls short of a target of 100 units.
pub open spec fn gamma_spec(growth: int) -> int {
    clamp_spec(fx_round_spec(8 * FX_ONE as int + tdiv_spec(100 * FX_ONE as int - growth, 25)), 2, 16)
}

/// Position weight: isolated countries (no allies) weigh position double.
pub open spec fn delta_spec(ally_count: int) -> int {
    if ally_count == 0 {
        8
    } else {
        clamp_spec(fx_round_spec(fx_div_spec(4 * FX_ONE as int, (ally_count + 1) * FX_ONE as int)), 2, 16)
    }
}

/// Risk weight: rises with recent losses.
pub open spec fn rho_spec(recent_losses: int) -> int {
    clamp_spec(fx_round_spec(4 * FX_ONE as int + tdiv_spec(recent_losses, 25)), 2, 16)
}

impl AdaptiveWeights {
    pub open spec fn wf(&self) -> bool {
        &&& 2 <= self.alpha <= 16
        &&& 2 <= self.beta <= 16
        &&& 2 <= self.gamma <= 16
        &&& 2 <= self.delta <= 16
        &&& 2 <= self.kappa <= 16
        &&& 2 <= self.rho <= 16
    }

    /// Baseline weights used before the first update.
    pub fn new() -> (r: AdaptiveWeights)
        ensures
            r == (AdaptiveWeights { alpha: 8, beta: 8, gamma: 8, delta: 4, kappa: 8, rho: 4 }),
            r.wf(),
    {
        AdaptiveWeights { alpha: 8, beta: 8, gamma: 8, delta: 4, kappa: 8, rho: 4 }
    }

    /// Recompute all six weights from the country's live signals.  The
    /// update is a pure function of the arguments; no previous weight value
    /// survives, and every result lands in `[2, 16]` whatever the inputs.
    pub fn update(
        &mut self,
        resources: i64,
        threat_index: i64,
        growth: i64,
        ally_count: usize,
        recent_losses: i64,
    )
        requires
            -FX_STAT_CAP <= resources <= FX_STAT_CAP,
            -FX_STAT_CAP <= threat_index <= FX_STAT_CAP,
            -FX_STAT_CAP <= growth <= FX_STAT_CAP,
            -FX_STAT_CAP <= recent_losses <= FX_STAT_CAP,
        ensures
            final(self).alpha == alpha_spec(resources as int),
            final(self).beta == beta_spec(threat_index as int),
            final(self).gamma == gamma_spec(growth as int),
            final(self).delta == delta_spec(ally_count as int),
            final(self).kappa == 8,
            final(self).rho == rho_spec(recent_losses as int),
            final(self).wf(),
    {
        let a_raw = 8 * FX_ONE + tdiv(1000 * FX_ONE - resources, 250);
        self.alpha = fx_clamp(fx_round(a_raw), 2, 16);

        if threat_index == -FX_ONE {
            self.beta = 2;
        } else {
            let t = fx_clamp(
                fx_div(threat_index, FX_ONE + threat_index),
                -10 * FX_ONE,
                10 * FX_ONE,
            );
            let prod = fx_mul(6_400_000, t);
            proof {
                lemma_fx_mul_le(6_400_000, t as int, 6_400_000, 10 * (FX_ONE as int));
            }
            let b_raw = 8 * FX_ONE + prod;
            self.beta = fx_clamp(fx_round(b_raw), 2, 16);
        }

        let g_raw = 8 * FX_ONE + tdiv(100 * FX_ONE - growth, 25);
        self.gamma = fx_clamp(fx_round(g_raw), 2, 16);

        if ally_count == 0 {
            self.delta = 8;
        } else if ally_count >= 4 {
            // 4 / (allies + 1) is at most 0.8 here, which rounds below the
            // floor of the clamp whatever the exact count.
            proof {
                let a = ally_count as int;
                let d = fx_div_spec(4 * FX_ONE as int, (a + 1) * FX_ONE as int);
                assert((4 * (FX_ONE as int)) * (FX_ONE as int) < ((a + 1) * (FX_ONE as int))
                    * 800_001) by (nonlinear_arith)
                    requires
                        a >= 4,
                ;
                lemma_div_lt(
                    (4 * (FX_ONE as int)) * (FX_ONE as int),
                    (a + 1) * (FX_ONE as int),
                    800_001,
                );
                vstd::arithmetic::mul::lemma_mul_strictly_positive(
                    a + 1,
                    FX_ONE as int,
                );
                vstd::arithmetic::div_mod::lemma_div_pos_is_pos(
                    (4 * (FX_ONE as int)) * (FX_ONE as int),
                    (a + 1) * (FX_ONE as int),
                );
                assert(0 <= d <= 800_000);
                assert(fx_round_spec(d) <= 1);
                vstd::arithmetic::div_mod::lemma_div_pos_is_pos(d + 500_000, FX_ONE as int);
            }
            self.delta = 2;
        } else {
            let denom = (ally_count as i64 + 1) * FX_ONE;
            let ratio = fx_div(4 * FX_ONE, denom);
            proof {
                lemma_inverse_bounded(4 * (FX_ONE as int), denom as int, 2);
            }
            self.delta = fx_clamp(fx_round(ratio), 2, 16);
        }

        self.kappa = 8;

        let r_raw = 4 * FX_ONE + tdiv(recent_losses, 25);
        self.rho = fx_clamp(fx_round(r_raw), 2, 16);
    }
}

impl Default for AdaptiveWeights {
    fn default() -> (r: AdaptiveWeights)
        ensures
            r == (AdaptiveWeights { alpha: 8, beta: 8, gamma: 8, delta: 4, kappa: 8, rho: 4 }),
    {
        AdaptiveWeights::new()
    }
}

/// Marginal value of `100 / (stat + 10)` units: high when the stat is low.
pub open spec fn mv_military_spec(m_eff: int) -> int {
    fx_div_spec(100 * FX_ONE as int, m_eff + 10 * FX_ONE as int)
}

pub open spec fn mv_economy_spec(gdp: int) -> int {
    fx_div_spec(100 * FX_ONE as int, gdp + 10 * FX_ONE as int)
}

pub open spec fn mv_tech_spec(tech_level: int) -> int {
    fx_div_spec(50 * FX_ONE as int, tech_level + 5 * FX_ONE as int)
}

pub open spec fn mv_diplomacy_spec(prestige: int) -> int {
    fx_div_spec(10 * FX_ONE as int, prestige + FX_ONE as int)
}

/// Diminishing-returns value per unit of each stat.
#[derive(Clone, Copy, Debug, PartialEq, Eq, Structural)]
pub struct MarginalValues {
    pub military: i64,
    pub economy: i64,
    pub tech: i64,
    pub diplomacy: i64,
}

impl MarginalValues {
    pub open spec fn wf(&self) -> bool {
        &&& 0 <= self.military <= 10 * FX_ONE
        &&& 0 <= self.economy <= 10 * FX_ONE
        &&& 0 <= self.tech <= 10 * FX_ONE
        &&& 0 <= self.diplomacy <= 10 * FX_ONE
    }

    pub fn new() -> (r: MarginalValues)
        ensures
            r == (MarginalValues {
                military: FX_ONE,
                economy: FX_ONE,
                tech: FX_ONE,
                diplomacy: FX_ONE,
            }),
            r.wf(),
    {
        MarginalValues { military: FX_ONE, economy: FX_ONE, tech: FX_ONE, diplomacy: FX_ONE }
    }

    /// Recompute each marginal value as the inverse of its stat plus a
    /// positive offset, so no division by zero is possible.
    pub fn update(&mut self, m_eff: i64, gdp: i64, tech_level: i64, prestige: i64)
        requires
            0 <= m_eff <= FX_STAT_CAP,
            0 <= gdp <= FX_STAT_CAP,
            0 <= tech_level <= FX_STAT_CAP,
            0 <= prestige <= FX_STAT_CAP,
        ensures
            final(self).military == mv_military_spec(m_eff as int),
            final(self).economy == mv_economy_spec(gdp as int),
            final(self).tech == mv_tech_spec(tech_level as int),
            final(self).diplomacy == mv_diplomacy_spec(prestige as int),
            final(self).wf(),
    {
        let mil = fx_div(100 * FX_ONE, m_eff + 10 * FX_ONE);
        let eco = fx_div(100 * FX_ONE, gdp + 10 * FX_ONE);
        let tec = fx_div(50 * FX_ONE, tech_level + 5 * FX_ONE);
        let dip = fx_div(10 * FX_ONE, prestige + FX_ONE);
        proof {
            lemma_inverse_bounded(100 * FX_ONE as int, m_eff as int + 10 * FX_ONE as int, 10);
            lemma_inverse_bounded(100 * FX_ONE as int, gdp as int + 10 * FX_ONE as int, 10);
            lemma_inverse_bounded(50 * FX_ONE as int, tech_level as int + 5 * FX_ONE as int, 10);
            lemma_inverse_bounded(10 * FX_ONE as int, prestige as int + FX_ONE as int, 10);
        }
        self.military = mil;
        self.economy = eco;
        self.tech = tec;
        self.diplomacy = dip;
    }
}

impl Default for MarginalValues {
    fn default() -> (r: MarginalValues)
        ensures
            r == (MarginalValues {
                military: FX_ONE,
                economy: FX_ONE,
                tech: FX_ONE,
                diplomacy: FX_ONE,
            }),
    {
        MarginalValues::new()
    }
}

/// `num / den` in fixed point is at most `cap` units when `num <= cap * den`.
proof fn lemma_inverse_bounded(num: int, den: int, cap: int)
    requires
        0 <= num,
        0 < den,
        0 <= cap,
        num <= cap * den,
    ensures
        0 <= fx_div_spec(num, den) <= cap * FX_ONE as int,
{
    assert(num * FX_ONE as int <= (cap * den) * FX_ONE as int) by (nonlinear_arith)
        requires
            num <= cap * den,
    ;
    assert((cap * den) * FX_ONE as int == (cap * FX_ONE as int) * den) by (nonlinear_arith);
    vstd::arithmetic::div_mod::lemma_div_is_ordered(
        num * FX_ONE as int,
        (cap * FX_ONE as int) * den,
        den,
    );
    vstd::arithmetic::div_mod::lemma_div_by_multiple(cap * FX_ONE as int, den);
    vstd::arithmetic::div_mod::lemma_div_pos_is_pos(num * FX_ONE as int, den);
    vstd::arithmetic::mul::lemma_mul_nonnegative(num, FX_ONE as int);
}

/// A directed relationship from one country to a neighbor.
#[derive(Clone, Copy, Debug, PartialEq, Eq, Structural)]
pub struct CountryEdge {
    pub neighbor_id: u32,
    pub distance_bucket: usize,
    pub terrain_penalty: i64,
    pub fortification: i64,
    pub border_length: i64,
    pub supply_diff: i64,
    pub hostility: i64,
    pub relations: i64,
}

impl CountryEdge {
    pub open spec fn wf(&self) -> bool {
        &&& self.distance_bucket <= 1_000_000
        &&& 0 <= self.terrain_penalty <= FX_STAT_CAP
        &&& 0 <= self.fortification <= FX_STAT_CAP
        &&& 0 <= self.border_length <= FX_STAT_CAP
        &&& -FX_STAT_CAP <= self.supply_diff <= FX_STAT_CAP
        &&& 0 <= self.hostility <= FX_ONE
        &&& -100 * FX_ONE <= self.relations <= 100 * FX_ONE
    }

    pub fn new(neighbor_id: u32) -> (r: CountryEdge)
        ensures
            r == (CountryEdge {
                neighbor_id,
                distance_bucket: 1,
                terrain_penalty: 0,
                fortification: 0,
                border_length: FX_ONE,
                supply_diff: 0,
                hostility: 0,
                relations: 0,
            }),
            r.wf(),
    {
        CountryEdge {
            neighbor_id,
            distance_bucket: 1,
            terrain_penalty: 0,
            fortification: 0,
            border_length: FX_ONE,
            supply_diff: 0,
            hostility: 0,
            relations: 0,
        }
    }
}

/// A border tile a country may fortify or move toward.
#[derive(Clone, Copy, Debug, PartialEq, Eq, Structural)]
pub struct BorderTile {
    pub id: u32,
    pub position_x: i32,
    pub position_y: i32,
    pub threat_gradient: i64,
    pub fortification: i64,
    pub garrison_strength: i64,
}

impl BorderTile {
    pub open spec fn wf(&self) -> bool {
        &&& -FX_STAT_CAP <= self.threat_gradient <= FX_STAT_CAP
        &&& 0 <= self.fortification <= FX_STAT_CAP
        &&& 0 <= self.garrison_strength <= FX_STAT_CAP
    }

    pub fn new(id: u32, x: i32, y: i32) -> (r: BorderTile)
        ensures
            r == (BorderTile {
                id,
                position_x: x,
                position_y: y,
                threat_gradient: 0,
                fortification: 0,
                garrison_strength: 0,
            }),
            r.wf(),
    {
        BorderTile {
            id,
            position_x: x,
            position_y: y,
            threat_gradient: 0,
            fortification: 0,
            garrison_strength: 0,
        }
    }
}

/// Index of the first edge pointing at `nid`, or `-1` when there is none.
pub open spec fn first_edge_idx(edges: Seq<CountryEdge>, nid: u32) -> int
    decreases edges.len(),
{
    if edges.len() == 0 {
        -1
    } else if edges[0].neighbor_id == nid {
        0
    } else {
        let rest = first_edge_idx(edges.drop_first(), nid);
        if rest == -1 {
            -1
        } else {
            rest + 1
        }
    }
}

/// The first-match index is exactly the least matching index.
pub proof fn lemma_first_edge_idx(edges: Seq<CountryEdge>, nid: u32, i: int)
    requires
        0 <= i <= edges.len(),
        forall|j: int| 0 <= j < i ==> #[trigger] edges[j].neighbor_id != nid,
        i < edges.len() ==> edges[i].neighbor_id == nid,
    ensures
        i < edges.len() ==> first_edge_idx(edges, nid) == i,
        i == edges.len() ==> first_edge_idx(edges, nid) == -1,
    decreases edges.len(),
{
    if edges.len() > 0 {
        if edges[0].neighbor_id == nid {
        } else {
            lemma_first_edge_idx(edges.drop_first(), nid, i - 1);
        }
    }
}

/// Index of the first tile with id `tid`, or `-1` when there is none.
pub open spec fn first_tile_idx(tiles: Seq<BorderTile>, tid: u32) -> int
    decreases tiles.len(),
{
    if tiles.len() == 0 {
        -1
    } else if tiles[0].id == tid {
        0
    } else {
        let rest = first_tile_idx(tiles.drop_first(), tid);
        if rest == -1 {
            -1
        } else {
            rest + 1
        }
    }
}

pub proof fn lemma_first_tile_idx(tiles: Seq<BorderTile>, tid: u32, i: int)
    requires
        0 <= i <= tiles.len(),
        forall|j: int| 0 <= j < i ==> #[trigger] tiles[j].id != tid,
        i < tiles.len() ==> tiles[i].id == tid,
    ensures
        i < tiles.len() ==> first_tile_idx(tiles, tid) == i,
        i == tiles.len() ==> first_tile_idx(tiles, tid) == -1,
    decreases tiles.len(),
{
    if tiles.len() > 0 {
        if tiles[0].id == tid {
        } else {
            lemma_first_tile_idx(tiles.drop_first(), tid, i - 1);
        }
    }
}

/// The aggregate per-country state.
#[derive(Clone, Debug)]
pub struct Country {
    pub id: u32,
    pub m_eff: i64,
    pub gdp: i64,
    pub growth: i64,
    pub prestige: i64,
    pub morale: i64,
    pub tech_level: i64,
    pub resources: i64,
    pub threat_index: i64,
    pub ally_count: usize,
    pub recent_losses: i64,
    pub weights: AdaptiveWeights,
    pub marginal_values: MarginalValues,
    pub edges: Vec<CountryEdge>,
    pub border_tiles: Vec<BorderTile>,
}

impl Country {
    pub open spec fn wf(&self) -> bool {
        &&& 0 <= self.m_eff <= FX_STAT_CAP
        &&& 0 <= self.gdp <= FX_STAT_CAP
        &&& 0 <= self.growth <= FX_STAT_CAP
        &&& 0 <= self.prestige <= FX_STAT_CAP
        &&& 0 <= self.morale <= FX_STAT_CAP
        &&& 0 <= self.tech_level <= FX_STAT_CAP
        &&& 0 <= self.resources <= FX_STAT_CAP
        &&& -FX_STAT_CAP <= self.threat_index <= FX_STAT_CAP
        &&& 0 <= self.recent_losses <= FX_STAT_CAP
        &&& self.weights.wf()
        &&& self.marginal_values.wf()
        &&& forall|i: int| 0 <= i < self.edges@.len() ==> (#[trigger] self.edges@[i]).wf()
        &&& forall|i: int|
            0 <= i < self.border_tiles@.len() ==> (#[trigger] self.border_tiles@[i]).wf()
    }

    /// All fields besides the edge list are unchanged.
    pub open spec fn same_but_edges(a: Country, b: Country) -> bool {
        &&& a.id == b.id
        &&& a.m_eff == b.m_eff
        &&& a.gdp == b.gdp
        &&& a.growth == b.growth
        &&& a.prestige == b.prestige
        &&& a.morale == b.morale
        &&& a.tech_level == b.tech_level
        &&& a.resources == b.resources
        &&& a.threat_index == b.threat_index
        &&& a.ally_count == b.ally_count
        &&& a.recent_losses == b.recent_losses
        &&& a.weights == b.weights
        &&& a.marginal_values == b.marginal_values
        &&& a.border_tiles@ == b.border_tiles@
    }

    /// A fresh country with the engine's baseline values.
    pub fn new(id: u32) -> (r: Country)
        ensures
            r.wf(),
            r.id == id,
            r.m_eff == 100 * FX_ONE,
            r.gdp == 100 * FX_ONE,
            r.growth == 5 * FX_ONE,
            r.prestige == 10 * FX_ONE,
            r.morale == FX_ONE,
            r.tech_level == FX_ONE,
            r.resources == 500 * FX_ONE,
            r.threat_index == 0,
            r.ally_count == 0,
            r.recent_losses == 0,
            r.weights == (AdaptiveWeights { alpha: 8, beta: 8, gamma: 8, delta: 4, kappa: 8, rho: 4 }),
            r.marginal_values == (MarginalValues {
                military: FX_ONE,
                economy: FX_ONE,
                tech: FX_ONE,
                diplomacy: FX_ONE,
            }),
            r.edges@.len() == 0,
            r.border_tiles@.len() == 0,
    {
        Country {
            id,
            m_eff: 100 * FX_ONE,
            gdp: 100 * FX_ONE,
            growth: 5 * FX_ONE,
            prestige: 10 * FX_ONE,
            morale: FX_ONE,
            tech_level: FX_ONE,
            resources: 500 * FX_ONE,
            threat_index: 0,
            ally_count: 0,
            recent_losses: 0,
            weights: AdaptiveWeights::new(),
            marginal_values: MarginalValues::new(),
            edges: Vec::new(),
            border_tiles: Vec::new(),
        }
    }

    /// Append a directed edge to the neighbor list.
    pub fn add_edge(&mut self, edge: CountryEdge)
        ensures
            final(self).edges@ == old(self).edges@.push(edge),
            Country::same_but_edges(*final(self), *old(self)),
            old(self).wf() && edge.wf() ==> final(self).wf(),
    {
        self.edges.push(edge);
    }

    /// Shared reference to the first edge pointing at `neighbor_id`.
    pub fn get_edge(&self, neighbor_id: u32) -> (r: Option<&CountryEdge>)
        ensures
            match r {
                Some(e) => {
                    &&& 0 <= first_edge_idx(self.edges@, neighbor_id) < self.edges@.len()
                    &&& *e == self.edges@[first_edge_idx(self.edges@, neighbor_id)]
                    &&& e.neighbor_id == neighbor_id
                },
                None => first_edge_idx(self.edges@, neighbor_id) == -1,
            },
    {
        let n = self.edges.len();
        let mut i: usize = 0;
        while i < n
            invariant
                i <= n,
                n == self.edges@.len(),
                forall|j: int| 0 <= j < i ==> #[trigger] self.edges@[j].neighbor_id != neighbor_id,
            decreases n - i,
        {
            if self.edges[i].neighbor_id == neighbor_id {
                proof {
                    lemma_first_edge_idx(self.edges@, neighbor_id, i as int);
                }
                return Some(&self.edges[i]);
            }
            i = i + 1;
        }
        proof {
            lemma_first_edge_idx(self.edges@, neighbor_id, n as int);
        }
        None
    }

    /// Exclusive reference to the first edge pointing at `neighbor_id`.
    pub fn get_edge_mut(&mut self, neighbor_id: u32) -> (r: Option<&mut CountryEdge>)
        ensures
            r is Some <==> first_edge_idx(old(self).edges@, neighbor_id) >= 0,
            r is None ==> {
                &&& final(self).edges@ == old(self).edges@
                &&& Country::same_but_edges(*final(self), *old(self))
            },
            r matches Some(e) ==> {
                let idx = first_edge_idx(old(self).edges@, neighbor_id);
                &&& 0 <= idx < old(self).edges@.len()
                &&& *e == old(self).edges@[idx]
                &&& final(self).edges@ == old(self).edges@.update(idx, *final(e))
                &&& Country::same_but_edges(*final(self), *old(self))
            },
    {
        let n = self.edges.len();
        let mut i: usize = 0;
        while i < n
            invariant
                i <= n,
                n == self.edges@.len(),
                self.edges@ == old(self).edges@,
                Country::same_but_edges(*self, *old(self)),
                forall|j: int| 0 <= j < i ==> #[trigger] self.edges@[j].neighbor_id != neighbor_id,
            decreases n - i,
        {
            if self.edges[i].neighbor_id == neighbor_id {
                proof {
                    lemma_first_edge_idx(self.edges@, neighbor_id, i as int);
                }
                return Some(&mut self.edges[i]);
            }
            i = i + 1;
        }
        proof {
            lemma_first_edge_idx(self.edges@, neighbor_id, n as int);
        }
        None
    }
}

} // verus!
