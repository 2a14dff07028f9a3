//! The decision system: the tick state machine that refreshes weights and
//! threat indices, builds and scores each country's shortlist, picks the
//! arg-max action, applies its effect, and emits one decision log per
//! country per tick.
//!
//! The whole tick is exact integer arithmetic over a registry iterated in
//! insertion order, so two systems constructed identically and fed the same
//! calls hold identical state and logs after every tick.

use vstd::prelude::*;

use crate::actions::{
    description_spec, generate_shortlist, shortlist_spec, take_top_k_cands, top_k_cands_spec,
    Action, ActionCandidate, PruningConfig,
};
use crate::country::{AdaptiveWeights, Country, CountryEdge, MarginalValues};
use crate::fixed::{clamp_spec, fx_clamp, FX_ONE};
use crate::luts::{default_tables_ok, LookupTables};
use crate::scoring::{
    batch_scores_spec, components_wf, score_action_spec, score_actions_batch, threat_index_spec,
    ScoreComponents,
};
use crate::world::{first_country_idx, Alliance, WorldState};

verus! {

/// Index of the first strictly greatest score among the first `n`: a later
/// candidate only displaces an earlier one by scoring strictly higher.
pub open spec fn argmax_first(scores: Seq<int>, n: int) -> int
    decreases n,
{
    if n <= 1 {
        0
    } else {
        let p = argmax_first(scores, n - 1);
        if scores[n - 1] > scores[p] {
            n - 1
        } else {
            p
        }
    }
}

/// The scalar score of every shortlisted candidate of one country.
pub open spec fn shortlist_scores_spec(
    c: Country,
    cs: Seq<Country>,
    l: LookupTables,
    cfg: PruningConfig,
) -> Seq<int> {
    batch_scores_spec(c, shortlist_spec(c, cs, cfg), cs, l)
}

/// Which shortlist position the country picks.
pub open spec fn chosen_idx_spec(c: Country, cs: Seq<Country>, l: LookupTables, cfg: PruningConfig) -> int {
    argmax_first(
        shortlist_scores_spec(c, cs, l, cfg),
        shortlist_spec(c, cs, cfg).len() as int,
    )
}

/// The action the country picks this tick.
pub open spec fn chosen_action_spec(
    c: Country,
    cs: Seq<Country>,
    l: LookupTables,
    cfg: PruningConfig,
) -> Action {
    shortlist_spec(c, cs, cfg)[chosen_idx_spec(c, cs, l, cfg)]
}

/// The six-channel vector of the picked action.
pub open spec fn chosen_components_spec(
    c: Country,
    cs: Seq<Country>,
    l: LookupTables,
    cfg: PruningConfig,
) -> ScoreComponents {
    score_action_spec(c, chosen_action_spec(c, cs, l, cfg), cs, l)
}

/// The scalar score of the picked action.
pub open spec fn chosen_score_spec(
    c: Country,
    cs: Seq<Country>,
    l: LookupTables,
    cfg: PruningConfig,
) -> int {
    shortlist_scores_spec(c, cs, l, cfg)[chosen_idx_spec(c, cs, l, cfg)]
}

/// The scored candidates that were not picked, drawn from the first `n`
/// shortlist positions.
pub open spec fn rejected_cands_upto(
    acts: Seq<Action>,
    scores: Seq<int>,
    chosen: Action,
    n: int,
) -> Seq<ActionCandidate>
    decreases n,
{
    if n <= 0 {
        Seq::empty()
    } else {
        let prev = rejected_cands_upto(acts, scores, chosen, n - 1);
        if acts[n - 1] != chosen {
            prev.push(ActionCandidate { action: acts[n - 1], priority: scores[n - 1] as i64 })
        } else {
            prev
        }
    }
}

/// The top two rejected alternatives, by score, first-seen winning ties.
pub open spec fn rejected_top2_spec(
    c: Country,
    cs: Seq<Country>,
    l: LookupTables,
    cfg: PruningConfig,
) -> Seq<ActionCandidate> {
    let acts = shortlist_spec(c, cs, cfg);
    top_k_cands_spec(
        rejected_cands_upto(
            acts,
            shortlist_scores_spec(c, cs, l, cfg),
            chosen_action_spec(c, cs, l, cfg),
            acts.len() as int,
        ),
        2,
    )
}

/// One telemetry record: the winning action of one country on one tick,
/// with its score, components, the weights used, and up to two rejected
/// alternatives.
#[derive(Clone, Debug)]
pub struct DecisionLog {
    pub tick: u64,
    pub country_id: u32,
    pub chosen_action: String,
    pub score: i64,
    pub components: ScoreComponents,
    pub weights: AdaptiveWeights,
    pub rejected_actions: Vec<(String, i64)>,
}

/// What a correct decision log holds, given the state the decision was made
/// against.
pub open spec fn log_ok_spec(
    lg: DecisionLog,
    tk: u64,
    c: Country,
    cs: Seq<Country>,
    l: LookupTables,
    cfg: PruningConfig,
) -> bool {
    &&& lg.tick == tk
    &&& lg.country_id == c.id
    &&& lg.chosen_action@ == description_spec(chosen_action_spec(c, cs, l, cfg))
    &&& lg.score as int == chosen_score_spec(c, cs, l, cfg)
    &&& lg.components == chosen_components_spec(c, cs, l, cfg)
    &&& lg.weights == c.weights
    &&& ({
        let rj = rejected_top2_spec(c, cs, l, cfg);
        &&& lg.rejected_actions@.len() == rj.len()
        &&& forall|t: int|
            0 <= t < rj.len() ==> (#[trigger] lg.rejected_actions@[t]).0@ == description_spec(
                rj[t].action,
            ) && lg.rejected_actions@[t].1 == rj[t].priority
    })
}

/// The registry after the two refresh passes of a tick: first every
/// country's weights and marginal values, then every country's threat index
/// against the refreshed registry.
pub open spec fn mid_countries_spec(
    cs0: Seq<Country>,
    als0: Seq<Alliance>,
    l: LookupTables,
) -> Seq<Country> {
    let cs1 = Seq::new(cs0.len(), |i: int| crate::world::refresh_weights_spec(cs0[i]));
    Seq::new(
        cs1.len(),
        |i: int| crate::world::with_threat(cs1[i], threat_index_spec(cs1[i], cs1, als0, l)),
    )
}

/// Every country's decision, in registry order: its id, chosen action, and
/// that action's components.
pub open spec fn decisions_spec(mid: Seq<Country>, l: LookupTables, cfg: PruningConfig) -> Seq<
    (u32, Action, ScoreComponents),
> {
    Seq::new(
        mid.len(),
        |i: int|
            (
                mid[i].id,
                chosen_action_spec(mid[i], mid, l, cfg),
                chosen_components_spec(mid[i], mid, l, cfg),
            ),
    )
}

/// A country's ally count after the first `k` decisions' alliance bumps.
pub open spec fn ally_count_upto(
    base: int,
    id: u32,
    ds: Seq<(u32, Action, ScoreComponents)>,
    k: int,
) -> int
    decreases k,
{
    if k <= 0 {
        base
    } else {
        let prev = ally_count_upto(base, id, ds, k - 1);
        match ds[k - 1].1 {
            Action::Ally { target_id } => {
                let b1 = if id == ds[k - 1].0 {
                    crate::world::sat_inc_spec(prev as nat) as int
                } else {
                    prev
                };
                if id == target_id {
                    crate::world::sat_inc_spec(b1 as nat) as int
                } else {
                    b1
                }
            },
            _ => prev,
        }
    }
}

/// The alliance set after the first `k` decisions.
pub open spec fn alliances_upto(
    als: Seq<Alliance>,
    ds: Seq<(u32, Action, ScoreComponents)>,
    k: int,
) -> Seq<Alliance>
    decreases k,
{
    if k <= 0 {
        als
    } else {
        let prev = alliances_upto(als, ds, k - 1);
        match ds[k - 1].1 {
            Action::Ally { target_id } => {
                let p = crate::world::norm_pair_spec(ds[k - 1].0, target_id);
                if prev.contains(p) {
                    prev
                } else {
                    prev.push(p)
                }
            },
            _ => prev,
        }
    }
}

/// How registry position `j` looks after the first `k` decisions have been
/// applied: its own decision's denormalized effect once `j < k`, the
/// alliance bumps of all `k` decisions, and nothing else.
pub open spec fn country_partial_ok(
    cm: Country,
    cf: Country,
    ds: Seq<(u32, Action, ScoreComponents)>,
    j: int,
    k: int,
) -> bool {
    &&& cf.id == cm.id
    &&& cf.m_eff == cm.m_eff
    &&& cf.gdp == cm.gdp
    &&& cf.prestige == cm.prestige
    &&& cf.morale == cm.morale
    &&& cf.threat_index == cm.threat_index
    &&& cf.recent_losses == cm.recent_losses
    &&& cf.weights == cm.weights
    &&& cf.marginal_values == cm.marginal_values
    &&& cf.edges@ == cm.edges@
    &&& cf.ally_count as int == ally_count_upto(cm.ally_count as int, cm.id, ds, k)
    &&& cf.resources as int == (if j < k {
        crate::world::applied_resources_spec(cm, ds[j].1, ds[j].2)
    } else {
        cm.resources as int
    })
    &&& cf.growth as int == (if j < k {
        crate::world::applied_growth_spec(cm, ds[j].1, ds[j].2)
    } else {
        cm.growth as int
    })
    &&& cf.tech_level as int == (if j < k {
        crate::world::applied_tech_spec(cm, ds[j].1)
    } else {
        cm.tech_level as int
    })
    &&& cf.border_tiles@ == (if j < k {
        match ds[j].1 {
            Action::Fortify { tile_id } => crate::world::applied_tiles_spec(cm, tile_id),
            _ => cm.border_tiles@,
        }
    } else {
        cm.border_tiles@
    })
}

/// Build one country's decision and its telemetry record against a frozen
/// world.
fn decide_one(
    c: &Country,
    world: &WorldState,
    luts: &LookupTables,
    cfg: &PruningConfig,
    tk: u64,
) -> (r: (DecisionLog, Action, ScoreComponents))
    requires
        c.wf(),
        world.wf(),
        luts.wf(),
    ensures
        log_ok_spec(r.0, tk, *c, world.countries@, *luts, *cfg),
        r.1 == chosen_action_spec(*c, world.countries@, *luts, *cfg),
        r.2 == chosen_components_spec(*c, world.countries@, *luts, *cfg),
        components_wf(r.2),
{
    let shortlist = generate_shortlist(c.id, c, world, cfg);
    let batch = score_actions_batch(c, &shortlist, world, luts);
    let ghost sseq = shortlist_scores_spec(*c, world.countries@, *luts, *cfg);
    let n = shortlist.len();
    let mut best: usize = 0;
    let mut j: usize = 1;
    while j < n
        invariant
            1 <= j <= n,
            n == shortlist@.len(),
            n >= 1,
            batch.final_scores@.len() == n,
            sseq.len() == n,
            forall|t: int| 0 <= t < n ==> #[trigger] batch.final_scores@[t] as int == sseq[t],
            best < j,
            best as int == argmax_first(sseq, j as int),
        decreases n - j,
    {
        if batch.final_scores[j] > batch.final_scores[best] {
            best = j;
        }
        j = j + 1;
    }
    let chosen = shortlist[best];
    let comp = batch.components[best];
    let score = batch.final_scores[best];
    let mut rej: Vec<ActionCandidate> = Vec::new();
    let mut i: usize = 0;
    while i < n
        invariant
            i <= n,
            n == shortlist@.len(),
            batch.final_scores@.len() == n,
            sseq.len() == n,
            forall|t: int| 0 <= t < n ==> #[trigger] batch.final_scores@[t] as int == sseq[t],
            rej@ == rejected_cands_upto(shortlist@, sseq, chosen, i as int),
        decreases n - i,
    {
        if !(shortlist[i] == chosen) {
            rej.push(ActionCandidate { action: shortlist[i], priority: batch.final_scores[i] });
        }
        i = i + 1;
    }
    let top2 = take_top_k_cands(rej, 2);
    let mut rejected_actions: Vec<(String, i64)> = Vec::new();
    let m = top2.len();
    let mut k: usize = 0;
    while k < m
        invariant
            k <= m,
            m == top2@.len(),
            rejected_actions@.len() == k,
            forall|t: int|
                0 <= t < k ==> (#[trigger] rejected_actions@[t]).0@ == description_spec(
                    top2@[t].action,
                ) && rejected_actions@[t].1 == top2@[t].priority,
        decreases m - k,
    {
        let d = top2[k].action.description();
        rejected_actions.push((d, top2[k].priority));
        k = k + 1;
    }
    let log = DecisionLog {
        tick: tk,
        country_id: c.id,
        chosen_action: chosen.description(),
        score,
        components: comp,
        weights: c.weights,
        rejected_actions,
    };
    (log, chosen, comp)
}

/// The coordinator: world state, shared lookup tables, pruning budgets, and
/// the accumulated decision logs.  The seed is carried for interface parity
/// with hosts that pair the engine with a seeded position simulation; the
/// decision engine itself consumes no randomness.
pub struct DecisionSystem {
    pub world: WorldState,
    pub luts: LookupTables,
    pub pruning_config: PruningConfig,
    pub logs: Vec<DecisionLog>,
    pub rng_seed: u64,
}

impl DecisionSystem {
    pub open spec fn wf(&self) -> bool {
        &&& self.world.wf()
        &&& self.luts.wf()
    }

    /// A fresh system: empty world, default tables and budgets.
    pub fn new() -> (r: DecisionSystem)
        ensures
            r.wf(),
            default_tables_ok(r.luts),
            r.world.countries@.len() == 0,
            r.world.alliances@.len() == 0,
            r.world.tick == 0,
            r.logs@.len() == 0,
            r.rng_seed == 12345,
            r.pruning_config == (PruningConfig {
                k_attack: 3,
                k_fortify: 3,
                k_invest: 2,
                k_research: 2,
                k_diplomacy: 2,
            }),
    {
        DecisionSystem {
            world: WorldState::new(),
            luts: LookupTables::new(),
            pruning_config: PruningConfig::new(),
            logs: Vec::new(),
            rng_seed: 12345,
        }
    }

    /// A fresh system carrying a caller-chosen seed.
    pub fn init(seed: u64) -> (r: DecisionSystem)
        ensures
            r.wf(),
            default_tables_ok(r.luts),
            r.world.countries@.len() == 0,
            r.world.alliances@.len() == 0,
            r.world.tick == 0,
            r.logs@.len() == 0,
            r.rng_seed == seed,
            r.pruning_config == (PruningConfig {
                k_attack: 3,
                k_fortify: 3,
                k_invest: 2,
                k_research: 2,
                k_diplomacy: 2,
            }),
    {
        DecisionSystem {
            world: WorldState::new(),
            luts: LookupTables::new(),
            pruning_config: PruningConfig::new(),
            logs: Vec::new(),
            rng_seed: seed,
        }
    }

    /// Register a country with baseline values under a caller-chosen id; a
    /// repeated id resets that country in place.
    pub fn add_country(&mut self, id: u32)
        requires
            old(self).wf(),
        ensures
            final(self).wf(),
            final(self).luts == old(self).luts,
            final(self).pruning_config == old(self).pruning_config,
            final(self).logs@ == old(self).logs@,
            final(self).rng_seed == old(self).rng_seed,
            final(self).world.alliances@ == old(self).world.alliances@,
            final(self).world.tick == old(self).world.tick,
            ({
                let cs0 = old(self).world.countries@;
                let idx = first_country_idx(cs0, id);
                let cs1 = final(self).world.countries@;
                if idx >= 0 {
                    &&& cs1.len() == cs0.len()
                    &&& forall|j: int| 0 <= j < cs0.len() && j != idx ==> cs1[j] == cs0[j]
                    &&& baseline_country_ok(cs1[idx], id)
                } else {
                    &&& cs1.len() == cs0.len() + 1
                    &&& forall|j: int| 0 <= j < cs0.len() ==> cs1[j] == cs0[j]
                    &&& baseline_country_ok(cs1[cs0.len() as int], id)
                }
            }),
    {
        let country = Country::new(id);
        self.world.add_country(country);
        proof {
            let cs0 = old(self).world.countries@;
            crate::world::lemma_first_country_idx_char(cs0, id);
            let idx = first_country_idx(cs0, id);
            if idx >= 0 {
                assert(self.world.countries@ == cs0.update(idx, country));
                assert(self.world.countries@[idx] == country);
            } else {
                assert(self.world.countries@ == cs0.push(country));
                assert(self.world.countries@[cs0.len() as int] == country);
            }
        }
    }

    /// Append a directed edge from `from_id` to `to_id` with the given
    /// distance bucket and hostility; silently does nothing when `from_id`
    /// is unknown.  The distance bucket and hostility are clamped into the
    /// engine's stored ranges.
    pub fn add_edge(&mut self, from_id: u32, to_id: u32, distance: usize, hostility: i64)
        requires
            old(self).wf(),
        ensures
            final(self).wf(),
            final(self).luts == old(self).luts,
            final(self).pruning_config == old(self).pruning_config,
            final(self).logs@ == old(self).logs@,
            final(self).rng_seed == old(self).rng_seed,
            final(self).world.alliances@ == old(self).world.alliances@,
            final(self).world.tick == old(self).world.tick,
            ({
                let cs0 = old(self).world.countries@;
                let idx = first_country_idx(cs0, from_id);
                let cs1 = final(self).world.countries@;
                if idx >= 0 {
                    &&& cs1.len() == cs0.len()
                    &&& forall|j: int| 0 <= j < cs0.len() && j != idx ==> cs1[j] == cs0[j]
                    &&& Country::same_but_edges(cs1[idx], cs0[idx])
                    &&& cs1[idx].edges@ == cs0[idx].edges@.push(
                        edge_from_inputs_spec(to_id, distance as int, hostility as int),
                    )
                } else {
                    cs1 == cs0
                }
            }),
    {
        let mut edge = CountryEdge::new(to_id);
        edge.distance_bucket = if distance > 1_000_000 {
            1_000_000
        } else {
            distance
        };
        edge.hostility = fx_clamp(hostility, 0, FX_ONE);
        let n = self.world.countries.len();
        let mut i: usize = 0;
        while i < n
            invariant
                i <= n,
                n == self.world.countries@.len(),
                old(self).wf(),
                self.world.countries@ == old(self).world.countries@,
                self.world.alliances@ == old(self).world.alliances@,
                self.world.tick == old(self).world.tick,
                self.luts == old(self).luts,
                self.pruning_config == old(self).pruning_config,
                self.logs@ == old(self).logs@,
                self.rng_seed == old(self).rng_seed,
                edge == edge_from_inputs_spec(to_id, distance as int, hostility as int),
                edge.wf(),
                forall|j: int|
                    0 <= j < i ==> (#[trigger] self.world.countries@[j]).id != from_id,
            decreases n - i,
        {
            if self.world.countries[i].id == from_id {
                proof {
                    crate::world::lemma_first_country_idx(
                        self.world.countries@,
                        from_id,
                        i as int,
                    );
                    assert(old(self).world.countries@[i as int].wf());
                }
                self.world.countries[i].edges.push(edge);
                proof {
                    assert forall|a: int|
                        0 <= a < self.world.countries@.len() implies (#[trigger] self.world.countries@[a]).wf() by {
                        assert(old(self).world.countries@[a].wf());
                        if a != i as int {
                            assert(self.world.countries@[a] == old(self).world.countries@[a]);
                        }
                    }
                    assert forall|a: int, b: int|
                        0 <= a < b < self.world.countries@.len() implies (
                    #[trigger] self.world.countries@[a]).id != (
                    #[trigger] self.world.countries@[b]).id by {
                        assert(self.world.countries@[a].id == old(self).world.countries@[a].id);
                        assert(self.world.countries@[b].id == old(self).world.countries@[b].id);
                    }
                }
                return ;
            }
            i = i + 1;
        }
        proof {
            crate::world::lemma_first_country_idx(self.world.countries@, from_id, n as int);
        }
    }

    /// The current tick counter.
    pub fn get_tick(&self) -> (r: u64)
        ensures
            r == self.world.tick,
    {
        self.world.get_tick()
    }

    /// The accumulated decision logs, oldest first.
    pub fn logs(&self) -> (r: &Vec<DecisionLog>)
        ensures
            r == &self.logs,
    {
        &self.logs
    }

    /// The world state, for snapshots.
    pub fn world(&self) -> (r: &WorldState)
        ensures
            r == &self.world,
    {
        &self.world
    }

    /// Exclusive access to the world state, for hosts that stage scenarios.
    pub fn world_mut(&mut self) -> (r: &mut WorldState)
        ensures
            *r == old(self).world,
            final(self).world == *final(r),
            final(self).luts == old(self).luts,
            final(self).pruning_config == old(self).pruning_config,
            final(self).logs@ == old(self).logs@,
            final(self).rng_seed == old(self).rng_seed,
    {
        &mut self.world
    }

    /// Drop accumulated telemetry without touching simulation state.
    pub fn clear_logs(&mut self)
        ensures
            final(self).logs@.len() == 0,
            final(self).world == old(self).world,
            final(self).luts == old(self).luts,
            final(self).pruning_config == old(self).pruning_config,
            final(self).rng_seed == old(self).rng_seed,
    {
        self.logs.clear();
    }

    /// Advance the state machine one step: refresh every country's weights
    /// (against last tick's threat index), refresh every threat index, then
    /// for each country in registry order build, score, and arg-max its
    /// shortlist and log the decision; finally apply every chosen action
    /// and increment the tick counter once.
    #[verifier::rlimit(100)]
    pub fn tick(&mut self)
        requires
            old(self).wf(),
            old(self).world.tick < u64::MAX,
        ensures
            final(self).wf(),
            final(self).world.tick == old(self).world.tick + 1,
            final(self).luts == old(self).luts,
            final(self).pruning_config == old(self).pruning_config,
            final(self).rng_seed == old(self).rng_seed,
            ({
                let cs0 = old(self).world.countries@;
                let als0 = old(self).world.alliances@;
                let mid = mid_countries_spec(cs0, als0, old(self).luts);
                let ds = decisions_spec(mid, old(self).luts, old(self).pruning_config);
                &&& final(self).logs@.len() == old(self).logs@.len() + cs0.len()
                &&& forall|t: int|
                    0 <= t < old(self).logs@.len() ==> final(self).logs@[t] == old(self).logs@[t]
                &&& forall|t: int|
                    0 <= t < cs0.len() ==> log_ok_spec(
                        #[trigger] final(self).logs@[old(self).logs@.len() + t],
                        old(self).world.tick,
                        mid[t],
                        mid,
                        old(self).luts,
                        old(self).pruning_config,
                    )
                &&& final(self).world.countries@.len() == cs0.len()
                &&& forall|t: int|
                    0 <= t < cs0.len() ==> country_partial_ok(
                        mid[t],
                        #[trigger] final(self).world.countries@[t],
                        ds,
                        t,
                        cs0.len() as int,
                    )
                &&& final(self).world.alliances@ == alliances_upto(als0, ds, cs0.len() as int)
            }),
    {
        let ghost cs0 = self.world.countries@;
        let ghost als0 = self.world.alliances@;
        self.world.update_weights();
        let ghost cs1x = self.world.countries@;
        proof {
            let cs1 = Seq::new(cs0.len(), |i: int| crate::world::refresh_weights_spec(cs0[i]));
            assert(cs1x =~= cs1);
        }
        self.world.update_threat_indices(&self.luts);
        proof {
            let cs1 = Seq::new(cs0.len(), |i: int| crate::world::refresh_weights_spec(cs0[i]));
            assert(cs1x == cs1);
            assert forall|i: int|
                0 <= i < cs0.len() implies self.world.countries@[i] == mid_countries_spec(
                cs0,
                als0,
                self.luts,
            )[i] by {
                assert(self.world.countries@[i] == crate::world::with_threat(
                    cs1x[i],
                    threat_index_spec(cs1x[i], cs1x, als0, self.luts),
                ));
            }
            assert(self.world.countries@ =~= mid_countries_spec(cs0, als0, self.luts));
        }
        let ghost mid = self.world.countries@;
        let ghost ds = decisions_spec(mid, self.luts, self.pruning_config);
        let n = self.world.countries.len();
        let mut decisions: Vec<(u32, Action, ScoreComponents)> = Vec::new();
        let mut j: usize = 0;
        while j < n
            invariant
                j <= n,
                n == self.world.countries@.len(),
                self.world.countries@ == mid,
                self.world.alliances@ == als0,
                self.world.tick == old(self).world.tick,
                self.world.wf(),
                self.luts == old(self).luts,
                self.luts.wf(),
                self.pruning_config == old(self).pruning_config,
                self.rng_seed == old(self).rng_seed,
                ds == decisions_spec(mid, self.luts, self.pruning_config),
                ds.len() == n,
                self.logs@.len() == old(self).logs@.len() + j,
                forall|t: int|
                    0 <= t < old(self).logs@.len() ==> #[trigger] self.logs@[t] == old(self).logs@[t],
                forall|t: int|
                    0 <= t < j ==> log_ok_spec(
                        #[trigger] self.logs@[old(self).logs@.len() + t],
                        old(self).world.tick,
                        mid[t],
                        mid,
                        self.luts,
                        self.pruning_config,
                    ),
                decisions@.len() == j,
                forall|t: int| 0 <= t < j ==> #[trigger] decisions@[t] == ds[t],
                forall|t: int| 0 <= t < j ==> components_wf((#[trigger] decisions@[t]).2),
            decreases n - j,
        {
            proof {
                assert(self.world.countries@[j as int].wf());
            }
            let tk = self.world.tick;
            let r = decide_one(
                &self.world.countries[j],
                &self.world,
                &self.luts,
                &self.pruning_config,
                tk,
            );
            let cid = self.world.countries[j].id;
            self.logs.push(r.0);
            decisions.push((cid, r.1, r.2));
            j = j + 1;
        }
        let ghost logs_mid = self.logs@;
        let mut k: usize = 0;
        while k < n
            invariant
                k <= n,
                n == mid.len(),
                ds.len() == n,
                ds == decisions_spec(mid, self.luts, self.pruning_config),
                n == self.world.countries@.len(),
                self.world.tick == old(self).world.tick,
                self.world.wf(),
                self.luts == old(self).luts,
                self.pruning_config == old(self).pruning_config,
                self.rng_seed == old(self).rng_seed,
                self.logs@ == logs_mid,
                decisions@.len() == n,
                forall|t: int| 0 <= t < n ==> #[trigger] decisions@[t] == ds[t],
                forall|t: int| 0 <= t < n ==> components_wf((#[trigger] decisions@[t]).2),
                forall|t: int| 0 <= t < n ==> (#[trigger] ds[t]).0 == mid[t].id,
                forall|i: int, jj: int|
                    0 <= i < jj < mid.len() ==> (#[trigger] mid[i]).id != (#[trigger] mid[jj]).id,
                self.world.alliances@ == alliances_upto(als0, ds, k as int),
                forall|t: int|
                    0 <= t < n ==> country_partial_ok(
                        mid[t],
                        #[trigger] self.world.countries@[t],
                        ds,
                        t,
                        k as int,
                    ),
            decreases n - k,
        {
            let d = decisions[k];
            let ghost pre = self.world.countries@;
            let ghost pre_als = self.world.alliances@;
            self.world.apply_decision(d.0, d.1, d.2);
            proof {
                lemma_apply_step(mid, pre, self.world.countries@, ds, k as int);
                assert(self.world.alliances@ =~= alliances_upto(als0, ds, k as int + 1)) by {
                    assert(crate::world::apply_alliances_spec(pre_als, ds[k as int].0, ds[k as int].1)
                        =~= alliances_upto(als0, ds, k as int + 1));
                };
            }
            k = k + 1;
        }
        self.world.tick = self.world.tick + 1;
    }
}

/// Determinism: the decision a country logs is a pure function of the state
/// the decision was made against, so two correct logs for the same tick,
/// country, registry, tables, and budgets agree in every observable field.
/// Engines constructed identically and fed identical call sequences hold
/// equal state at every tick, and therefore equal log sequences.
pub proof fn lemma_log_deterministic(
    lg1: DecisionLog,
    lg2: DecisionLog,
    tk: u64,
    c: Country,
    cs: Seq<Country>,
    l: LookupTables,
    cfg: PruningConfig,
)
    requires
        log_ok_spec(lg1, tk, c, cs, l, cfg),
        log_ok_spec(lg2, tk, c, cs, l, cfg),
    ensures
        lg1.tick == lg2.tick,
        lg1.country_id == lg2.country_id,
        lg1.chosen_action@ == lg2.chosen_action@,
        lg1.score == lg2.score,
        lg1.components == lg2.components,
        lg1.weights == lg2.weights,
        lg1.rejected_actions@.len() == lg2.rejected_actions@.len(),
        forall|t: int|
            0 <= t < lg1.rejected_actions@.len() ==> (#[trigger] lg1.rejected_actions@[t]).0@
                == lg2.rejected_actions@[t].0@ && lg1.rejected_actions@[t].1
                == lg2.rejected_actions@[t].1,
{
}

/// A just-registered country: baseline scalars, default weights and
/// marginal values, no edges, no tiles.
pub open spec fn baseline_country_ok(c: Country, id: u32) -> bool {
    &&& c.id == id
    &&& c.m_eff == 100 * FX_ONE
    &&& c.gdp == 100 * FX_ONE
    &&& c.growth == 5 * FX_ONE
    &&& c.prestige == 10 * FX_ONE
    &&& c.morale == FX_ONE
    &&& c.tech_level == FX_ONE
    &&& c.resources == 500 * FX_ONE
    &&& c.threat_index == 0
    &&& c.ally_count == 0
    &&& c.recent_losses == 0
    &&& c.weights == (AdaptiveWeights { alpha: 8, beta: 8, gamma: 8, delta: 4, kappa: 8, rho: 4 })
    &&& c.marginal_values == (MarginalValues {
        military: FX_ONE,
        economy: FX_ONE,
        tech: FX_ONE,
        diplomacy: FX_ONE,
    })
    &&& c.edges@.len() == 0
    &&& c.border_tiles@.len() == 0
}

/// The edge built from the host-facing inputs: defaults everywhere, with
/// the distance bucket and hostility clamped into their stored ranges.
pub open spec fn edge_from_inputs_spec(to_id: u32, distance: int, hostility: int) -> CountryEdge {
    CountryEdge {
        neighbor_id: to_id,
        distance_bucket: (if distance > 1_000_000 {
            1_000_000
        } else {
            distance
        }) as usize,
        terrain_penalty: 0,
        fortification: 0,
        border_length: FX_ONE,
        supply_diff: 0,
        hostility: clamp_spec(hostility, 0, FX_ONE as int) as i64,
        relations: 0,
    }
}

/// One apply step keeps every registry position in the partially-applied
/// relation.
proof fn lemma_apply_step(
    mid: Seq<Country>,
    pre: Seq<Country>,
    post: Seq<Country>,
    ds: Seq<(u32, Action, ScoreComponents)>,
    k: int,
)
    requires
        0 <= k < ds.len(),
        mid.len() == ds.len(),
        pre.len() == mid.len(),
        post.len() == pre.len(),
        forall|t: int| 0 <= t < ds.len() ==> (#[trigger] ds[t]).0 == mid[t].id,
        forall|i: int, j: int|
            0 <= i < j < mid.len() ==> (#[trigger] mid[i]).id != (#[trigger] mid[j]).id,
        forall|t: int|
            0 <= t < mid.len() ==> country_partial_ok(mid[t], #[trigger] pre[t], ds, t, k),
        forall|t: int|
            0 <= t < pre.len() ==> crate::world::country_applied_ok(
                #[trigger] pre[t],
                post[t],
                ds[k].0,
                ds[k].1,
                ds[k].2,
            ),
    ensures
        forall|t: int|
            0 <= t < mid.len() ==> country_partial_ok(mid[t], #[trigger] post[t], ds, t, k + 1),
{
    assert forall|t: int|
        0 <= t < mid.len() implies country_partial_ok(mid[t], #[trigger] post[t], ds, t, k + 1) by {
        assert(country_partial_ok(mid[t], pre[t], ds, t, k));
        assert(crate::world::country_applied_ok(pre[t], post[t], ds[k].0, ds[k].1, ds[k].2));
        if t == k {
            assert(pre[t].id == mid[t].id);
            assert(pre[t].id == ds[k].0);
        } else {
            if pre[t].id == ds[k].0 {
                assert(mid[t].id == mid[k].id);
                if t < k {
                    assert(mid[t].id != mid[k].id);
                } else {
                    assert(mid[k].id != mid[t].id);
                }
            }
        }
    }
}

} // verus!
