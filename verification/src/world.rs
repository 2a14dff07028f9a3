//! World state: the country registry, the symmetric alliance relation, and
//! the tick counter.
//!
//! Countries live in a vector in insertion order, so every iteration over
//! the registry is stable and reproducible.  Alliances are normalized
//! `(min, max)` pairs held without duplicates.

use vstd::prelude::*;

use crate::actions::Action;
use crate::country::{
    alpha_spec, beta_spec, delta_spec, first_tile_idx, gamma_spec, lemma_first_tile_idx,
    mv_diplomacy_spec, mv_economy_spec, mv_military_spec, mv_tech_spec, rho_spec, AdaptiveWeights,
    BorderTile, Country, MarginalValues,
};
use crate::fixed::{clamp_spec, fx_clamp, fx_mul, fx_mul_spec, lemma_fx_mul_le, FX_ONE,
    FX_STAT_CAP};
use crate::scoring::{components_wf, ScoreComponents};

verus! {

/// One alliance between two countries, as a record.
#[derive(Clone, Copy, Debug, PartialEq, Eq, Structural)]
pub struct Alliance {
    pub country_a: u32,
    pub country_b: u32,
}

/// The unordered pair `{a, b}` in its normalized `(min, max)` form.
pub open spec fn norm_pair_spec(a: u32, b: u32) -> Alliance {
    if a < b {
        Alliance { country_a: a, country_b: b }
    } else {
        Alliance { country_a: b, country_b: a }
    }
}

/// Index of the first registered country with this id, or `-1`.
pub open spec fn first_country_idx(cs: Seq<Country>, id: u32) -> int
    decreases cs.len(),
{
    if cs.len() == 0 {
        -1
    } else if cs[0].id == id {
        0
    } else {
        let rest = first_country_idx(cs.drop_first(), id);
        if rest == -1 {
            -1
        } else {
            rest + 1
        }
    }
}

/// The first-match index is exactly the least matching index.
pub proof fn lemma_first_country_idx(cs: Seq<Country>, id: u32, i: int)
    requires
        0 <= i <= cs.len(),
        forall|j: int| 0 <= j < i ==> (#[trigger] cs[j]).id != id,
        i < cs.len() ==> cs[i].id == id,
    ensures
        i < cs.len() ==> first_country_idx(cs, id) == i,
        i == cs.len() ==> first_country_idx(cs, id) == -1,
    decreases cs.len(),
{
    if cs.len() > 0 {
        if cs[0].id == id {
        } else {
            lemma_first_country_idx(cs.drop_first(), id, i - 1);
        }
    }
}

/// What a first-match index means: a hit names the least matching position,
/// a miss means no position matches.
pub proof fn lemma_first_country_idx_char(cs: Seq<Country>, id: u32)
    ensures
        first_country_idx(cs, id) == -1 || 0 <= first_country_idx(cs, id) < cs.len(),
        first_country_idx(cs, id) == -1 ==> forall|j: int|
            0 <= j < cs.len() ==> (#[trigger] cs[j]).id != id,
        first_country_idx(cs, id) >= 0 ==> {
            let i = first_country_idx(cs, id);
            &&& i < cs.len()
            &&& cs[i].id == id
            &&& forall|j: int| 0 <= j < i ==> (#[trigger] cs[j]).id != id
        },
    decreases cs.len(),
{
    if cs.len() > 0 && cs[0].id != id {
        lemma_first_country_idx_char(cs.drop_first(), id);
        let rest = first_country_idx(cs.drop_first(), id);
        if rest == -1 {
            assert forall|j: int| 0 <= j < cs.len() implies (#[trigger] cs[j]).id != id by {
                if j > 0 {
                    assert(cs.drop_first()[j - 1] == cs[j]);
                }
            }
        } else {
            assert(0 <= rest < cs.drop_first().len());
            assert(cs.drop_first()[rest] == cs[rest + 1]);
            assert forall|j: int| 0 <= j < rest + 1 implies (#[trigger] cs[j]).id != id by {
                if j > 0 {
                    assert(cs.drop_first()[j - 1] == cs[j]);
                }
            }
        }
    }
}

/// An increment that sticks at the machine maximum instead of wrapping.
pub open spec fn sat_inc_spec(n: nat) -> nat {
    if n < usize::MAX {
        n + 1
    } else {
        n
    }
}

/// `c` with its ally count bumped by one (saturating).
pub open spec fn with_ally_bump(c: Country) -> Country {
    Country { ally_count: sat_inc_spec(c.ally_count as nat) as usize, ..c }
}

/// `cs` with the first country of this id, if any, given one more ally.
pub open spec fn bump_ally_spec(cs: Seq<Country>, id: u32) -> Seq<Country> {
    let idx = first_country_idx(cs, id);
    if idx == -1 {
        cs
    } else {
        cs.update(idx, with_ally_bump(cs[idx]))
    }
}

/// `c` with its cached threat index replaced.
pub open spec fn with_threat(c: Country, t: int) -> Country {
    Country { threat_index: t as i64, ..c }
}

/// `c` with freshly recomputed adaptive weights and marginal values, all
/// other fields untouched.
pub open spec fn refresh_weights_spec(c: Country) -> Country {
    Country {
        weights: AdaptiveWeights {
            alpha: alpha_spec(c.resources as int) as i64,
            beta: beta_spec(c.threat_index as int) as i64,
            gamma: gamma_spec(c.growth as int) as i64,
            delta: delta_spec(c.ally_count as int) as i64,
            kappa: 8,
            rho: rho_spec(c.recent_losses as int) as i64,
        },
        marginal_values: MarginalValues {
            military: mv_military_spec(c.m_eff as int) as i64,
            economy: mv_economy_spec(c.gdp as int) as i64,
            tech: mv_tech_spec(c.tech_level as int) as i64,
            diplomacy: mv_diplomacy_spec(c.prestige as int) as i64,
        },
        ..c
    }
}

/// All countries, the alliance set, and the current tick.
#[derive(Clone, Debug)]
pub struct WorldState {
    pub countries: Vec<Country>,
    pub alliances: Vec<Alliance>,
    pub tick: u64,
}

impl WorldState {
    pub open spec fn wf(&self) -> bool {
        &&& forall|i: int| 0 <= i < self.countries@.len() ==> (#[trigger] self.countries@[i]).wf()
        &&& forall|i: int, j: int|
            0 <= i < j < self.countries@.len() ==> (#[trigger] self.countries@[i]).id != (
            #[trigger] self.countries@[j]).id
        &&& forall|i: int|
            0 <= i < self.alliances@.len() ==> (#[trigger] self.alliances@[i]).country_a
                <= self.alliances@[i].country_b
        &&& forall|i: int, j: int|
            0 <= i < j < self.alliances@.len() ==> #[trigger] self.alliances@[i] != #[trigger] self.alliances@[j]
    }

    /// Whether a country with this id is registered.
    pub open spec fn has_country_spec(&self, id: u32) -> bool {
        first_country_idx(self.countries@, id) >= 0
    }

    /// The registered country with this id (meaningful when it exists).
    pub open spec fn country_spec(&self, id: u32) -> Country {
        self.countries@[first_country_idx(self.countries@, id)]
    }

    /// Whether the normalized pair is in the alliance set; symmetric in its
    /// two arguments by construction.
    pub open spec fn allied_spec(&self, a: u32, b: u32) -> bool {
        self.alliances@.contains(norm_pair_spec(a, b))
    }

    /// An empty world at tick zero.
    pub fn new() -> (r: WorldState)
        ensures
            r.countries@.len() == 0,
            r.alliances@.len() == 0,
            r.tick == 0,
            r.wf(),
    {
        WorldState { countries: Vec::new(), alliances: Vec::new(), tick: 0 }
    }

    /// Register a country: a repeated id replaces the earlier entry in
    /// place, a fresh id appends to the registry.
    pub fn add_country(&mut self, country: Country)
        ensures
            ({
                let idx = first_country_idx(old(self).countries@, country.id);
                if idx >= 0 {
                    final(self).countries@ == old(self).countries@.update(idx, country)
                } else {
                    final(self).countries@ == old(self).countries@.push(country)
                }
            }),
            final(self).alliances@ == old(self).alliances@,
            final(self).tick == old(self).tick,
            old(self).wf() && country.wf() ==> final(self).wf(),
    {
        proof {
            lemma_first_country_idx_char(self.countries@, country.id);
        }
        let n = self.countries.len();
        let mut i: usize = 0;
        while i < n
            invariant
                i <= n,
                n == self.countries@.len(),
                self.countries@ == old(self).countries@,
                self.alliances@ == old(self).alliances@,
                self.tick == old(self).tick,
                forall|j: int| 0 <= j < i ==> (#[trigger] self.countries@[j]).id != country.id,
            decreases n - i,
        {
            if self.countries[i].id == country.id {
                proof {
                    lemma_first_country_idx(self.countries@, country.id, i as int);
                }
                self.countries[i] = country;
                proof {
                    if old(self).wf() && country.wf() {
                        assert forall|x: int|
                            0 <= x < self.countries@.len() implies (#[trigger] self.countries@[x]).wf() by {
                            if x != i as int {
                                assert(self.countries@[x] == old(self).countries@[x]);
                            }
                        }
                        assert forall|x: int, y: int|
                            0 <= x < y < self.countries@.len() implies (#[trigger] self.countries@[x]).id
                            != (#[trigger] self.countries@[y]).id by {
                            assert(old(self).countries@[i as int].id == country.id);
                            if x != i as int {
                                assert(self.countries@[x] == old(self).countries@[x]);
                            }
                            if y != i as int {
                                assert(self.countries@[y] == old(self).countries@[y]);
                            }
                        }
                    }
                }
                return ;
            }
            i = i + 1;
        }
        proof {
            lemma_first_country_idx(self.countries@, country.id, n as int);
        }
        self.countries.push(country);
        proof {
            if old(self).wf() && country.wf() {
                assert forall|x: int, y: int|
                    0 <= x < y < self.countries@.len() implies (#[trigger] self.countries@[x]).id
                    != (#[trigger] self.countries@[y]).id by {
                    if y == self.countries@.len() - 1 {
                        assert(self.countries@[x] == old(self).countries@[x]);
                    } else {
                        assert(self.countries@[x] == old(self).countries@[x]);
                        assert(self.countries@[y] == old(self).countries@[y]);
                    }
                }
            }
        }
    }

    /// Shared reference to the country with this id, if registered.
    pub fn get_country(&self, id: u32) -> (r: Option<&Country>)
        ensures
            match r {
                Some(c) => self.has_country_spec(id) && *c == self.country_spec(id),
                None => !self.has_country_spec(id),
            },
    {
        let n = self.countries.len();
        let mut i: usize = 0;
        while i < n
            invariant
                i <= n,
                n == self.countries@.len(),
                forall|j: int| 0 <= j < i ==> (#[trigger] self.countries@[j]).id != id,
            decreases n - i,
        {
            if self.countries[i].id == id {
                proof {
                    lemma_first_country_idx(self.countries@, id, i as int);
                }
                return Some(&self.countries[i]);
            }
            i = i + 1;
        }
        proof {
            lemma_first_country_idx(self.countries@, id, n as int);
        }
        None
    }

    /// Exclusive reference to the country with this id, if registered.
    pub fn get_country_mut(&mut self, id: u32) -> (r: Option<&mut Country>)
        ensures
            r is Some <==> first_country_idx(old(self).countries@, id) >= 0,
            r is None ==> {
                &&& final(self).countries@ == old(self).countries@
                &&& final(self).alliances@ == old(self).alliances@
                &&& final(self).tick == old(self).tick
            },
            r matches Some(c) ==> {
                let idx = first_country_idx(old(self).countries@, id);
                &&& 0 <= idx < old(self).countries@.len()
                &&& *c == old(self).countries@[idx]
                &&& final(self).countries@ == old(self).countries@.update(idx, *final(c))
                &&& final(self).alliances@ == old(self).alliances@
                &&& final(self).tick == old(self).tick
            },
    {
        let n = self.countries.len();
        let mut i: usize = 0;
        while i < n
            invariant
                i <= n,
                n == self.countries@.len(),
                self.countries@ == old(self).countries@,
                self.alliances@ == old(self).alliances@,
                self.tick == old(self).tick,
                forall|j: int| 0 <= j < i ==> (#[trigger] self.countries@[j]).id != id,
            decreases n - i,
        {
            if self.countries[i].id == id {
                proof {
                    lemma_first_country_idx(self.countries@, id, i as int);
                }
                return Some(&mut self.countries[i]);
            }
            i = i + 1;
        }
        proof {
            lemma_first_country_idx(self.countries@, id, n as int);
        }
        None
    }

    /// The whole registry, in insertion order.
    pub fn countries(&self) -> (r: &Vec<Country>)
        ensures
            r == &self.countries,
    {
        &self.countries
    }

    /// Record an alliance: insert the normalized pair unless it is already
    /// present, then bump both countries' ally counts.  The bump is applied
    /// on every call, present pair or not, as the engine's interface
    /// documents; hosts that do not want renewed alliances to count twice
    /// must add each pair at most once.
    pub fn add_alliance(&mut self, a: u32, b: u32)
        ensures
            ({
                let pair = norm_pair_spec(a, b);
                if old(self).alliances@.contains(pair) {
                    final(self).alliances@ == old(self).alliances@
                } else {
                    final(self).alliances@ == old(self).alliances@.push(pair)
                }
            }),
            final(self).countries@ == bump_ally_spec(bump_ally_spec(old(self).countries@, a), b),
            final(self).tick == old(self).tick,
            final(self).allied_spec(a, b),
            old(self).wf() ==> final(self).wf(),
    {
        let pair: Alliance = if a < b {
            Alliance { country_a: a, country_b: b }
        } else {
            Alliance { country_a: b, country_b: a }
        };
        let n = self.alliances.len();
        let mut i: usize = 0;
        let mut found = false;
        while i < n
            invariant
                i <= n,
                n == self.alliances@.len(),
                pair == norm_pair_spec(a, b),
                self.countries@ == old(self).countries@,
                self.alliances@ == old(self).alliances@,
                self.tick == old(self).tick,
                found <==> exists|j: int| 0 <= j < i && self.alliances@[j] == pair,
            decreases n - i,
        {
            let entry = self.alliances[i];
            if entry.country_a == pair.country_a && entry.country_b == pair.country_b {
                found = true;
            }
            i = i + 1;
        }
        if !found {
            self.alliances.push(pair);
            proof {
                assert(self.alliances@[self.alliances@.len() - 1] == pair);
                assert(self.alliances@.contains(pair));
            }
        } else {
            proof {
                let j = choose|j: int| 0 <= j < n && self.alliances@[j] == pair;
                assert(self.alliances@[j] == pair);
                assert(self.alliances@.contains(pair));
            }
        }
        self.bump_ally(a);
        self.bump_ally(b);
    }

    /// Bump one country's ally count by one, saturating.
    fn bump_ally(&mut self, id: u32)
        ensures
            final(self).countries@ == bump_ally_spec(old(self).countries@, id),
            final(self).alliances@ == old(self).alliances@,
            final(self).tick == old(self).tick,
            old(self).wf() ==> final(self).wf(),
    {
        let n = self.countries.len();
        let mut i: usize = 0;
        while i < n
            invariant
                i <= n,
                n == self.countries@.len(),
                self.countries@ == old(self).countries@,
                self.alliances@ == old(self).alliances@,
                self.tick == old(self).tick,
                forall|j: int| 0 <= j < i ==> (#[trigger] self.countries@[j]).id != id,
            decreases n - i,
        {
            if self.countries[i].id == id {
                proof {
                    lemma_first_country_idx(self.countries@, id, i as int);
                }
                let c = &mut self.countries[i];
                if c.ally_count < usize::MAX {
                    c.ally_count = c.ally_count + 1;
                }
                proof {
                    assert(self.countries@ =~= old(self).countries@.update(
                        i as int,
                        with_ally_bump(old(self).countries@[i as int]),
                    ));
                    if old(self).wf() {
                        assert forall|x: int|
                            0 <= x < self.countries@.len() implies (#[trigger] self.countries@[x]).wf() by {
                            if x != i as int {
                                assert(self.countries@[x] == old(self).countries@[x]);
                            }
                        }
                        assert forall|x: int, y: int|
                            0 <= x < y < self.countries@.len() implies (#[trigger] self.countries@[x]).id
                            != (#[trigger] self.countries@[y]).id by {
                            assert(self.countries@[x].id == old(self).countries@[x].id);
                            assert(self.countries@[y].id == old(self).countries@[y].id);
                        }
                    }
                }
                return ;
            }
            i = i + 1;
        }
        proof {
            lemma_first_country_idx(self.countries@, id, n as int);
        }
    }

    /// Whether the two countries are allied; symmetric in `a` and `b`.
    pub fn are_allies(&self, a: u32, b: u32) -> (r: bool)
        ensures
            r == self.allied_spec(a, b),
    {
        let pair: Alliance = if a < b {
            Alliance { country_a: a, country_b: b }
        } else {
            Alliance { country_a: b, country_b: a }
        };
        let n = self.alliances.len();
        let mut i: usize = 0;
        while i < n
            invariant
                i <= n,
                n == self.alliances@.len(),
                pair == norm_pair_spec(a, b),
                forall|j: int| 0 <= j < i ==> self.alliances@[j] != pair,
            decreases n - i,
        {
            let entry = self.alliances[i];
            if entry.country_a == pair.country_a && entry.country_b == pair.country_b {
                proof {
                    assert(entry == pair);
                    assert(pair == norm_pair_spec(a, b));
                    assert(self.alliances@[i as int] == pair);
                    assert(self.alliances@.contains(pair));
                }
                return true;
            }
            i = i + 1;
        }
        proof {
            if self.alliances@.contains(pair) {
                let j = choose|j: int| 0 <= j < self.alliances@.len() && self.alliances@[j] == pair;
                assert(self.alliances@[j] == pair);
            }
        }
        false
    }

    /// The alliance relation is symmetric: `are_allies(a, b)` and
    /// `are_allies(b, a)` always agree, including when `a == b`.
    pub proof fn lemma_allies_symmetric(&self, a: u32, b: u32)
        ensures
            self.allied_spec(a, b) == self.allied_spec(b, a),
    {
        assert(norm_pair_spec(a, b) == norm_pair_spec(b, a));
    }

    /// The current tick counter.
    pub fn get_tick(&self) -> (r: u64)
        ensures
            r == self.tick,
    {
        self.tick
    }

    /// Recompute every country's adaptive weights and marginal values from
    /// its current scalars, in registry order.
    pub fn update_weights(&mut self)
        requires
            old(self).wf(),
        ensures
            final(self).countries@.len() == old(self).countries@.len(),
            forall|i: int|
                0 <= i < old(self).countries@.len() ==> final(self).countries@[i]
                    == refresh_weights_spec(#[trigger] old(self).countries@[i]),
            final(self).alliances@ == old(self).alliances@,
            final(self).tick == old(self).tick,
            final(self).wf(),
    {
        let n = self.countries.len();
        let mut i: usize = 0;
        while i < n
            invariant
                i <= n,
                n == self.countries@.len(),
                n == old(self).countries@.len(),
                old(self).wf(),
                self.alliances@ == old(self).alliances@,
                self.tick == old(self).tick,
                self.countries@.len() == n,
                forall|j: int|
                    0 <= j < i ==> self.countries@[j] == refresh_weights_spec(
                        #[trigger] old(self).countries@[j],
                    ),
                forall|j: int| 0 <= j < i ==> (#[trigger] self.countries@[j]).wf(),
                forall|j: int| i <= j < n ==> self.countries@[j] == old(self).countries@[j],
            decreases n - i,
        {
            proof {
                assert(self.countries@[i as int] == old(self).countries@[i as int]);
                assert((old(self).countries@[i as int]).wf());
            }
            let resources = self.countries[i].resources;
            let threat_index = self.countries[i].threat_index;
            let growth = self.countries[i].growth;
            let ally_count = self.countries[i].ally_count;
            let recent_losses = self.countries[i].recent_losses;
            let m_eff = self.countries[i].m_eff;
            let gdp = self.countries[i].gdp;
            let tech_level = self.countries[i].tech_level;
            let prestige = self.countries[i].prestige;
            let c = &mut self.countries[i];
            c.weights.update(resources, threat_index, growth, ally_count, recent_losses);
            c.marginal_values.update(m_eff, gdp, tech_level, prestige);
            i = i + 1;
        }
        proof {
            assert forall|a: int, b: int|
                0 <= a < b < self.countries@.len() implies (#[trigger] self.countries@[a]).id != (
            #[trigger] self.countries@[b]).id by {
                assert(self.countries@[a].id == old(self).countries@[a].id);
                assert(self.countries@[b].id == old(self).countries@[b].id);
            }
        }
    }

    /// Recompute every country's cached threat index against the current
    /// registry and alliance set, in registry order.  Since a threat index
    /// reads only the neighbors' strengths and the alliance set, the whole
    /// pass is computed against the state at its start.
    pub fn update_threat_indices(&mut self, luts: &crate::luts::LookupTables)
        requires
            old(self).wf(),
            luts.wf(),
        ensures
            final(self).countries@.len() == old(self).countries@.len(),
            forall|i: int|
                0 <= i < old(self).countries@.len() ==> final(self).countries@[i] == with_threat(
                    #[trigger] old(self).countries@[i],
                    crate::scoring::threat_index_spec(
                        old(self).countries@[i],
                        old(self).countries@,
                        old(self).alliances@,
                        *luts,
                    ),
                ),
            final(self).alliances@ == old(self).alliances@,
            final(self).tick == old(self).tick,
            final(self).wf(),
    {
        let n = self.countries.len();
        let mut tis: Vec<i64> = Vec::new();
        let mut i: usize = 0;
        while i < n
            invariant
                i <= n,
                n == self.countries@.len(),
                self.countries@ == old(self).countries@,
                self.alliances@ == old(self).alliances@,
                self.tick == old(self).tick,
                old(self).wf(),
                luts.wf(),
                tis@.len() == i,
                forall|j: int|
                    0 <= j < i ==> #[trigger] tis@[j] == crate::scoring::threat_index_spec(
                        old(self).countries@[j],
                        old(self).countries@,
                        old(self).alliances@,
                        *luts,
                    ),
                forall|j: int| 0 <= j < i ==> -crate::fixed::FX_STAT_CAP <= #[trigger] tis@[j]
                    <= crate::fixed::FX_STAT_CAP,
            decreases n - i,
        {
            proof {
                assert(self.countries@[i as int].wf());
            }
            let ti = crate::scoring::compute_threat_index(&self.countries[i], self, luts);
            tis.push(ti);
            i = i + 1;
        }
        let mut k: usize = 0;
        while k < n
            invariant
                k <= n,
                n == self.countries@.len(),
                n == old(self).countries@.len(),
                self.alliances@ == old(self).alliances@,
                self.tick == old(self).tick,
                old(self).wf(),
                tis@.len() == n,
                forall|j: int|
                    0 <= j < n ==> #[trigger] tis@[j] == crate::scoring::threat_index_spec(
                        old(self).countries@[j],
                        old(self).countries@,
                        old(self).alliances@,
                        *luts,
                    ),
                forall|j: int| 0 <= j < n ==> -crate::fixed::FX_STAT_CAP <= #[trigger] tis@[j]
                    <= crate::fixed::FX_STAT_CAP,
                forall|j: int|
                    0 <= j < k ==> self.countries@[j] == with_threat(
                        #[trigger] old(self).countries@[j],
                        tis@[j] as int,
                    ),
                forall|j: int| k <= j < n ==> self.countries@[j] == old(self).countries@[j],
            decreases n - k,
        {
            let v = tis[k];
            self.countries[k].threat_index = v;
            k = k + 1;
        }
        proof {
            assert forall|a: int|
                0 <= a < self.countries@.len() implies (#[trigger] self.countries@[a]).wf() by {
                assert(old(self).countries@[a].wf());
            }
            assert forall|a: int, b: int|
                0 <= a < b < self.countries@.len() implies (#[trigger] self.countries@[a]).id != (
            #[trigger] self.countries@[b]).id by {
                assert(self.countries@[a].id == old(self).countries@[a].id);
                assert(self.countries@[b].id == old(self).countries@[b].id);
            }
        }
    }

    /// Apply one chosen action's effect: denormalize its channels back to
    /// raw units on the acting country, record an alliance, or raise a
    /// tile's fortification.  Every touched scalar is clamped back into the
    /// engine's stored range; unknown actors, targets, and tiles degrade to
    /// no effect.
    pub fn apply_decision(&mut self, actor: u32, action: Action, comp: ScoreComponents)
        requires
            old(self).wf(),
            components_wf(comp),
        ensures
            final(self).tick == old(self).tick,
            final(self).alliances@ == apply_alliances_spec(old(self).alliances@, actor, action),
            final(self).countries@.len() == old(self).countries@.len(),
            forall|j: int|
                0 <= j < old(self).countries@.len() ==> country_applied_ok(
                    #[trigger] old(self).countries@[j],
                    final(self).countries@[j],
                    actor,
                    action,
                    comp,
                ),
            final(self).wf(),
    {
        match action {
            Action::Ally { target_id } => {
                self.add_alliance(actor, target_id);
                proof {
                    lemma_bump_pointwise(old(self).countries@, actor, target_id, self.countries@);
                }
            },
            Action::Attack { .. } => {
                self.scale_actor(actor, action, comp);
            },
            Action::Invest { .. } => {
                self.scale_actor(actor, action, comp);
            },
            Action::Research { .. } => {
                self.scale_actor(actor, action, comp);
            },
            Action::Pact { .. } => {
                self.scale_actor(actor, action, comp);
            },
            Action::Trade { .. } => {
                self.scale_actor(actor, action, comp);
            },
            Action::Fortify { .. } => {
                self.scale_actor(actor, action, comp);
            },
            Action::Move { .. } => {
            },
            Action::Pass => {
            },
        }
    }

    /// Apply a non-alliance action's effect to the acting country.
    fn scale_actor(&mut self, actor: u32, action: Action, comp: ScoreComponents)
        requires
            old(self).wf(),
            components_wf(comp),
            !(action is Ally),
            !(action is Move),
            !(action is Pass),
        ensures
            final(self).tick == old(self).tick,
            final(self).alliances@ == old(self).alliances@,
            final(self).countries@.len() == old(self).countries@.len(),
            forall|j: int|
                0 <= j < old(self).countries@.len() ==> country_applied_ok(
                    #[trigger] old(self).countries@[j],
                    final(self).countries@[j],
                    actor,
                    action,
                    comp,
                ),
            final(self).wf(),
    {
        let n = self.countries.len();
        let mut i: usize = 0;
        while i < n
            invariant
                i <= n,
                n == self.countries@.len(),
                old(self).wf(),
                components_wf(comp),
                !(action is Ally),
                !(action is Move),
                !(action is Pass),
                self.countries@ == old(self).countries@,
                self.alliances@ == old(self).alliances@,
                self.tick == old(self).tick,
                forall|j: int| 0 <= j < i ==> (#[trigger] self.countries@[j]).id != actor,
            decreases n - i,
        {
            if self.countries[i].id == actor {
                proof {
                    assert(old(self).countries@[i as int].wf());
                }
                let ghost pre = self.countries@;
                match action {
                    Action::Attack { .. } => {
                        let c = &mut self.countries[i];
                        c.resources = fx_clamp(c.resources + comp.delta_res * 50, 0, FX_STAT_CAP);
                    },
                    Action::Invest { .. } => {
                        let gb = fx_mul(comp.delta_growth, 100_000);
                        proof {
                            lemma_fx_mul_le(
                                comp.delta_growth as int,
                                100_000,
                                32 * FX_ONE as int,
                                100_000,
                            );
                        }
                        let c = &mut self.countries[i];
                        c.growth = fx_clamp(c.growth + gb, 0, FX_STAT_CAP);
                        c.resources = fx_clamp(c.resources - comp.cost * 20, 0, FX_STAT_CAP);
                    },
                    Action::Research { .. } => {
                        let c = &mut self.countries[i];
                        c.tech_level = fx_clamp(c.tech_level + 100_000, 0, FX_STAT_CAP);
                        c.resources = fx_clamp(c.resources - comp.cost * 20, 0, FX_STAT_CAP);
                    },
                    Action::Pact { .. } => {
                        let c = &mut self.countries[i];
                        c.resources = fx_clamp(c.resources + comp.delta_res * 50, 0, FX_STAT_CAP);
                    },
                    Action::Trade { .. } => {
                        let c = &mut self.countries[i];
                        c.resources = fx_clamp(c.resources + comp.delta_res * 50, 0, FX_STAT_CAP);
                    },
                    Action::Fortify { tile_id } => {
                        self.fortify_tile(i, tile_id);
                    },
                    Action::Ally { .. } => {
                    },
                    Action::Move { .. } => {
                    },
                    Action::Pass => {
                    },
                }
                proof {
                    assert forall|j: int|
                        0 <= j < old(self).countries@.len() implies country_applied_ok(
                        #[trigger] old(self).countries@[j],
                        self.countries@[j],
                        actor,
                        action,
                        comp,
                    ) by {
                        if j != i as int {
                            assert(self.countries@[j] == old(self).countries@[j]);
                            assert(old(self).countries@[j].id != actor || j == i as int) by {
                                if old(self).countries@[j].id == actor && j != i as int {
                                    assert(old(self).countries@[i as int].id == actor);
                                }
                            };
                        }
                    }
                    assert forall|a: int, b: int|
                        0 <= a < b < self.countries@.len() implies (#[trigger] self.countries@[a]).id
                        != (#[trigger] self.countries@[b]).id by {
                        assert(self.countries@[a].id == old(self).countries@[a].id);
                        assert(self.countries@[b].id == old(self).countries@[b].id);
                    }
                    assert forall|a: int|
                        0 <= a < self.countries@.len() implies (#[trigger] self.countries@[a]).wf() by {
                        assert(old(self).countries@[a].wf());
                        if a == i as int {
                            assert(country_applied_ok(
                                old(self).countries@[a],
                                self.countries@[a],
                                actor,
                                action,
                                comp,
                            ));
                        } else {
                            assert(self.countries@[a] == old(self).countries@[a]);
                        }
                    }
                }
                return ;
            }
            i = i + 1;
        }
        proof {
            assert forall|j: int|
                0 <= j < old(self).countries@.len() implies country_applied_ok(
                #[trigger] old(self).countries@[j],
                self.countries@[j],
                actor,
                action,
                comp,
            ) by {
                assert(self.countries@[j] == old(self).countries@[j]);
                assert(old(self).countries@[j].id != actor);
            }
        }
    }

    /// Raise one border tile's fortification by half a unit, clamped.
    fn fortify_tile(&mut self, idx: usize, tile_id: u32)
        requires
            old(self).wf(),
            idx < old(self).countries@.len(),
        ensures
            final(self).tick == old(self).tick,
            final(self).alliances@ == old(self).alliances@,
            final(self).countries@.len() == old(self).countries@.len(),
            forall|j: int|
                0 <= j < old(self).countries@.len() && j != idx ==> final(self).countries@[j]
                    == old(self).countries@[j],
            ({
                let cm = old(self).countries@[idx as int];
                let cf = final(self).countries@[idx as int];
                &&& cf == Country { border_tiles: cf.border_tiles, ..cm }
                &&& cf.border_tiles@ == applied_tiles_spec(cm, tile_id)
            }),
            final(self).wf(),
    {
        let nt = self.countries[idx].border_tiles.len();
        let mut t: usize = 0;
        while t < nt
            invariant
                t <= nt,
                idx < self.countries@.len(),
                nt == self.countries@[idx as int].border_tiles@.len(),
                old(self).wf(),
                self.countries@ == old(self).countries@,
                self.alliances@ == old(self).alliances@,
                self.tick == old(self).tick,
                forall|j: int|
                    0 <= j < t ==> (#[trigger] self.countries@[idx as int].border_tiles@[j]).id
                        != tile_id,
            decreases nt - t,
        {
            if self.countries[idx].border_tiles[t].id == tile_id {
                proof {
                    lemma_first_tile_idx(
                        self.countries@[idx as int].border_tiles@,
                        tile_id,
                        t as int,
                    );
                    assert(old(self).countries@[idx as int].wf());
                    assert(old(self).countries@[idx as int].border_tiles@[t as int].wf());
                }
                let tile = &mut self.countries[idx].border_tiles[t];
                tile.fortification = fx_clamp(tile.fortification + 500_000, 0, FX_STAT_CAP);
                proof {
                    assert forall|a: int|
                        0 <= a < self.countries@.len() implies (#[trigger] self.countries@[a]).wf() by {
                        assert(old(self).countries@[a].wf());
                        if a != idx as int {
                            assert(self.countries@[a] == old(self).countries@[a]);
                        }
                    }
                    assert forall|a: int, b: int|
                        0 <= a < b < self.countries@.len() implies (#[trigger] self.countries@[a]).id
                        != (#[trigger] self.countries@[b]).id by {
                        assert(self.countries@[a].id == old(self).countries@[a].id);
                        assert(self.countries@[b].id == old(self).countries@[b].id);
                    }
                }
                return ;
            }
            t = t + 1;
        }
        proof {
            lemma_first_tile_idx(self.countries@[idx as int].border_tiles@, tile_id, nt as int);
            assert(self.countries@ =~= old(self).countries@);
        }
    }
}

/// The alliance set after an action: an alliance proposal inserts its
/// normalized pair unless present; every other action leaves it alone.
pub open spec fn apply_alliances_spec(als: Seq<Alliance>, actor: u32, action: Action) -> Seq<
    Alliance,
> {
    match action {
        Action::Ally { target_id } => {
            let p = norm_pair_spec(actor, target_id);
            if als.contains(p) {
                als
            } else {
                als.push(p)
            }
        },
        _ => als,
    }
}

/// The acting country's resources after the action.
pub open spec fn applied_resources_spec(cm: Country, a: Action, comp: ScoreComponents) -> int {
    match a {
        Action::Attack { .. } => clamp_spec(
            cm.resources + comp.delta_res * 50,
            0,
            FX_STAT_CAP as int,
        ),
        Action::Invest { .. } => clamp_spec(cm.resources - comp.cost * 20, 0, FX_STAT_CAP as int),
        Action::Research { .. } => clamp_spec(cm.resources - comp.cost * 20, 0, FX_STAT_CAP as int),
        Action::Pact { .. } => clamp_spec(cm.resources + comp.delta_res * 50, 0, FX_STAT_CAP as int),
        Action::Trade { .. } => clamp_spec(
            cm.resources + comp.delta_res * 50,
            0,
            FX_STAT_CAP as int,
        ),
        _ => cm.resources as int,
    }
}

/// The acting country's growth after the action.
pub open spec fn applied_growth_spec(cm: Country, a: Action, comp: ScoreComponents) -> int {
    match a {
        Action::Invest { .. } => clamp_spec(
            cm.growth + fx_mul_spec(comp.delta_growth as int, 100_000),
            0,
            FX_STAT_CAP as int,
        ),
        _ => cm.growth as int,
    }
}

/// The acting country's technology level after the action.
pub open spec fn applied_tech_spec(cm: Country, a: Action) -> int {
    match a {
        Action::Research { .. } => clamp_spec(cm.tech_level + 100_000, 0, FX_STAT_CAP as int),
        _ => cm.tech_level as int,
    }
}

/// The acting country's border tiles after the action: a fortification
/// order raises the named tile by half a unit.
pub open spec fn applied_tiles_spec(cm: Country, tile_id: u32) -> Seq<BorderTile> {
    let ti = first_tile_idx(cm.border_tiles@, tile_id);
    if ti < 0 {
        cm.border_tiles@
    } else {
        cm.border_tiles@.update(
            ti,
            BorderTile {
                fortification: clamp_spec(
                    cm.border_tiles@[ti].fortification + 500_000,
                    0,
                    FX_STAT_CAP as int,
                ) as i64,
                ..cm.border_tiles@[ti]
            },
        )
    }
}

/// A country's ally count after the action: an alliance proposal bumps the
/// proposer and then the target, saturating.
pub open spec fn applied_ally_count_spec(cm: Country, actor: u32, a: Action) -> int {
    match a {
        Action::Ally { target_id } => {
            let b1 = if cm.id == actor {
                sat_inc_spec(cm.ally_count as nat) as int
            } else {
                cm.ally_count as int
            };
            if cm.id == target_id {
                sat_inc_spec(b1 as nat) as int
            } else {
                b1
            }
        },
        _ => cm.ally_count as int,
    }
}

/// How one applied action relates a country's state after to its state
/// before: the actor takes the action's denormalized effect, everyone may
/// take an alliance bump, and nothing else moves.
pub open spec fn country_applied_ok(
    cm: Country,
    cf: Country,
    actor: u32,
    a: Action,
    comp: ScoreComponents,
) -> bool {
    &&& cf.id == cm.id
    &&& cf.m_eff == cm.m_eff
    &&& cf.gdp == cm.gdp
    &&& cf.prestige == cm.prestige
    &&& cf.morale == cm.morale
    &&& cf.threat_index == cm.threat_index
    &&& cf.recent_losses == cm.recent_losses
    &&& cf.weights == cm.weights
    &&& cf.marginal_values == cm.marginal_values
    &&& cf.edges@ == cm.edges@
    &&& cf.ally_count as int == applied_ally_count_spec(cm, actor, a)
    &&& cf.resources as int == (if cm.id == actor {
        applied_resources_spec(cm, a, comp)
    } else {
        cm.resources as int
    })
    &&& cf.growth as int == (if cm.id == actor {
        applied_growth_spec(cm, a, comp)
    } else {
        cm.growth as int
    })
    &&& cf.tech_level as int == (if cm.id == actor {
        applied_tech_spec(cm, a)
    } else {
        cm.tech_level as int
    })
    &&& cf.border_tiles@ == (if cm.id == actor {
        match a {
            Action::Fortify { tile_id } => applied_tiles_spec(cm, tile_id),
            _ => cm.border_tiles@,
        }
    } else {
        cm.border_tiles@
    })
}

/// A registry with unique ids finds a matching country exactly at its own
/// position.
proof fn lemma_unique_id_index(cs: Seq<Country>, id: u32, j: int)
    requires
        forall|x: int, y: int|
            0 <= x < y < cs.len() ==> (#[trigger] cs[x]).id != (#[trigger] cs[y]).id,
        0 <= j < cs.len(),
        cs[j].id == id,
    ensures
        first_country_idx(cs, id) == j,
{
    lemma_first_country_idx_char(cs, id);
    let i = first_country_idx(cs, id);
    if i != j {
        if i == -1 {
            assert(cs[j].id != id);
        } else if i < j {
            assert(cs[i].id != cs[j].id);
        } else {
            assert(cs[j].id != id);
        }
    }
}

/// The double ally bump of one alliance, read pointwise.
proof fn lemma_bump_pointwise(cs: Seq<Country>, a: u32, b: u32, cs2: Seq<Country>)
    requires
        cs2 == bump_ally_spec(bump_ally_spec(cs, a), b),
        forall|i: int, j: int|
            0 <= i < j < cs.len() ==> (#[trigger] cs[i]).id != (#[trigger] cs[j]).id,
    ensures
        cs2.len() == cs.len(),
        forall|j: int|
            0 <= j < cs.len() ==> (#[trigger] cs2[j]).ally_count as int == applied_ally_count_spec(
                cs[j],
                a,
                Action::Ally { target_id: b },
            ),
        forall|j: int|
            0 <= j < cs.len() ==> same_but_ally_count(#[trigger] cs[j], cs2[j]),
{
    let mid = bump_ally_spec(cs, a);
    lemma_first_country_idx_char(cs, a);
    let ia = first_country_idx(cs, a);
    assert(mid.len() == cs.len());
    assert forall|j: int| 0 <= j < cs.len() implies (#[trigger] mid[j]).id == cs[j].id by {
        if ia >= 0 && j == ia {
        }
    }
    lemma_first_country_idx_same(cs, mid, b);
    let ib = first_country_idx(mid, b);
    assert(ib == first_country_idx(cs, b));
    lemma_first_country_idx_char(cs, b);
    assert forall|j: int|
        0 <= j < cs.len() implies ((#[trigger] cs2[j]).ally_count as int
        == applied_ally_count_spec(cs[j], a, Action::Ally { target_id: b })
        && same_but_ally_count(cs[j], cs2[j])) by {
        // Pin whether this very position carries id `a` or id `b`.
        if cs[j].id == a {
            lemma_unique_id_index(cs, a, j);
            assert(ia == j);
        } else {
            if ia == j {
                assert(cs[ia].id == a);
            }
        }
        if cs[j].id == b {
            lemma_unique_id_index(cs, b, j);
            assert(ib == j);
        } else {
            if ib == j {
                assert(cs[ib].id == b);
            }
        }
        if ia >= 0 && j == ia {
            assert(mid[j] == with_ally_bump(cs[j]));
        } else {
            assert(mid[j] == cs[j]);
        }
        if ib >= 0 && j == ib {
            assert(cs2[j] == with_ally_bump(mid[j]));
        } else {
            assert(cs2[j] == mid[j]);
        }
    }
}

/// Two registries with pointwise equal ids agree on every first-match
/// index.
proof fn lemma_first_country_idx_same(cs: Seq<Country>, cs2: Seq<Country>, id: u32)
    requires
        cs.len() == cs2.len(),
        forall|j: int| 0 <= j < cs.len() ==> (#[trigger] cs[j]).id == cs2[j].id,
    ensures
        first_country_idx(cs, id) == first_country_idx(cs2, id),
    decreases cs.len(),
{
    if cs.len() > 0 {
        assert forall|j: int|
            0 <= j < cs.drop_first().len() implies (#[trigger] cs.drop_first()[j]).id
            == cs2.drop_first()[j].id by {
            assert(cs.drop_first()[j] == cs[j + 1]);
            assert(cs2.drop_first()[j] == cs2[j + 1]);
        }
        lemma_first_country_idx_same(cs.drop_first(), cs2.drop_first(), id);
    }
}

/// Everything but the ally count is unchanged.
pub open spec fn same_but_ally_count(cm: Country, cf: Country) -> bool {
    &&& cf.id == cm.id
    &&& cf.m_eff == cm.m_eff
    &&& cf.gdp == cm.gdp
    &&& cf.growth == cm.growth
    &&& cf.prestige == cm.prestige
    &&& cf.morale == cm.morale
    &&& cf.tech_level == cm.tech_level
    &&& cf.resources == cm.resources
    &&& cf.threat_index == cm.threat_index
    &&& cf.recent_losses == cm.recent_losses
    &&& cf.weights == cm.weights
    &&& cf.marginal_values == cm.marginal_values
    &&& cf.edges@ == cm.edges@
    &&& cf.border_tiles@ == cm.border_tiles@
}

impl Default for WorldState {
    fn default() -> (r: WorldState)
        ensures
            r.countries@.len() == 0,
            r.alliances@.len() == 0,
            r.tick == 0,
            r.wf(),
    {
        WorldState::new()
    }
}

} // verus!
