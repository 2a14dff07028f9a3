//! The closed action vocabulary and candidate generation: a cheap per-family
//! heuristic ranks possible actions, and only the top few of each family,
//! plus `Pass`, survive into the scoring shortlist.

use vstd::prelude::*;
use vstd::string::StrSliceExecFns;
use vstd::string::StringExecFns;

use crate::country::{BorderTile, Country, CountryEdge, MarginalValues};
use crate::fixed::{fx_mul, fx_mul_spec, lemma_fx_mul_le, FX_ONE, FX_STAT_CAP};
use crate::world::WorldState;

verus! {

/// Everything a country can decide to do in one tick.
#[derive(Clone, Copy, Debug, PartialEq, Eq, Structural)]
pub enum Action {
    /// Attack a neighboring country.
    Attack { target_id: u32 },
    /// Invest in a sector.
    Invest { sector: InvestSector },
    /// Research a technology.
    Research { tech: TechType },
    /// Propose an alliance to a neighbor.
    Ally { target_id: u32 },
    /// Sign a pact with a neighbor.
    Pact { target_id: u32 },
    /// Open a trade agreement with a neighbor.
    Trade { target_id: u32 },
    /// Fortify a border tile.
    Fortify { tile_id: u32 },
    /// Move troops toward a border tile.
    Move { tile_id: u32 },
    /// Do nothing.
    Pass,
}

/// Investment sectors.
#[derive(Clone, Copy, Debug, PartialEq, Eq, Structural)]
pub enum InvestSector {
    Infrastructure,
    Military,
    Economy,
    Technology,
}

/// Technology branches.
#[derive(Clone, Copy, Debug, PartialEq, Eq, Structural)]
pub enum TechType {
    MilitaryAdvancement,
    EconomicEfficiency,
    DiplomaticInfluence,
    TechnologicalBreakthrough,
}

/// The decimal digit character for `d` in `0..=9`.
pub open spec fn dec_digit_spec(d: int) -> char {
    if d == 0 {
        '0'
    } else if d == 1 {
        '1'
    } else if d == 2 {
        '2'
    } else if d == 3 {
        '3'
    } else if d == 4 {
        '4'
    } else if d == 5 {
        '5'
    } else if d == 6 {
        '6'
    } else if d == 7 {
        '7'
    } else if d == 8 {
        '8'
    } else {
        '9'
    }
}

/// The decimal notation of a non-negative number, most significant digit
/// first.
pub open spec fn dec_str_spec(n: int) -> Seq<char>
    decreases n,
{
    if n < 10 {
        seq![dec_digit_spec(n)]
    } else {
        dec_str_spec(n / 10).push(dec_digit_spec(n % 10))
    }
}

pub proof fn lemma_dec_str_len(n: int)
    ensures
        dec_str_spec(n).len() >= 1,
    decreases n,
{
    if n >= 10 {
        lemma_dec_str_len(n / 10);
    }
}

fn digit_str(d: u32) -> (r: &'static str)
    requires
        d < 10,
    ensures
        r@ == seq![dec_digit_spec(d as int)],
{
    if d == 0 {
        proof {
            reveal_strlit("0");
            assert("0"@ =~= seq![dec_digit_spec(0)]);
        }
        "0"
    } else if d == 1 {
        proof {
            reveal_strlit("1");
            assert("1"@ =~= seq![dec_digit_spec(1)]);
        }
        "1"
    } else if d == 2 {
        proof {
            reveal_strlit("2");
            assert("2"@ =~= seq![dec_digit_spec(2)]);
        }
        "2"
    } else if d == 3 {
        proof {
            reveal_strlit("3");
            assert("3"@ =~= seq![dec_digit_spec(3)]);
        }
        "3"
    } else if d == 4 {
        proof {
            reveal_strlit("4");
            assert("4"@ =~= seq![dec_digit_spec(4)]);
        }
        "4"
    } else if d == 5 {
        proof {
            reveal_strlit("5");
            assert("5"@ =~= seq![dec_digit_spec(5)]);
        }
        "5"
    } else if d == 6 {
        proof {
            reveal_strlit("6");
            assert("6"@ =~= seq![dec_digit_spec(6)]);
        }
        "6"
    } else if d == 7 {
        proof {
            reveal_strlit("7");
            assert("7"@ =~= seq![dec_digit_spec(7)]);
        }
        "7"
    } else if d == 8 {
        proof {
            reveal_strlit("8");
            assert("8"@ =~= seq![dec_digit_spec(8)]);
        }
        "8"
    } else {
        proof {
            reveal_strlit("9");
            assert("9"@ =~= seq![dec_digit_spec(9)]);
        }
        "9"
    }
}

/// The decimal notation of `n` as an owned string.
fn u32_decimal(n: u32) -> (r: String)
    ensures
        r@ == dec_str_spec(n as int),
    decreases n,
{
    if n < 10 {
        let d = digit_str(n);
        String::from_str(d)
    } else {
        proof {
            vstd::arithmetic::div_mod::lemma_div_decreases(n as int, 10);
        }
        let mut s = u32_decimal(n / 10);
        let d = digit_str(n % 10);
        s.append(d);
        proof {
            assert(dec_str_spec((n / 10) as int).push(dec_digit_spec((n % 10) as int)) =~= dec_str_spec(
                (n / 10) as int,
            ) + seq![dec_digit_spec((n % 10) as int)]);
        }
        s
    }
}

/// The display name of an investment sector.
pub open spec fn sector_name_spec(s: InvestSector) -> Seq<char> {
    match s {
        InvestSector::Infrastructure => "Infrastructure"@,
        InvestSector::Military => "Military"@,
        InvestSector::Economy => "Economy"@,
        InvestSector::Technology => "Technology"@,
    }
}

fn sector_str(s: InvestSector) -> (r: &'static str)
    ensures
        r@ == sector_name_spec(s),
{
    match s {
        InvestSector::Infrastructure => "Infrastructure",
        InvestSector::Military => "Military",
        InvestSector::Economy => "Economy",
        InvestSector::Technology => "Technology",
    }
}

/// The display name of a technology branch.
pub open spec fn tech_name_spec(t: TechType) -> Seq<char> {
    match t {
        TechType::MilitaryAdvancement => "MilitaryAdvancement"@,
        TechType::EconomicEfficiency => "EconomicEfficiency"@,
        TechType::DiplomaticInfluence => "DiplomaticInfluence"@,
        TechType::TechnologicalBreakthrough => "TechnologicalBreakthrough"@,
    }
}

fn tech_str(t: TechType) -> (r: &'static str)
    ensures
        r@ == tech_name_spec(t),
{
    match t {
        TechType::MilitaryAdvancement => "MilitaryAdvancement",
        TechType::EconomicEfficiency => "EconomicEfficiency",
        TechType::DiplomaticInfluence => "DiplomaticInfluence",
        TechType::TechnologicalBreakthrough => "TechnologicalBreakthrough",
    }
}

/// The human-readable line an action writes into the decision log.
pub open spec fn description_spec(a: Action) -> Seq<char> {
    match a {
        Action::Attack { target_id } => "Attack country "@ + dec_str_spec(target_id as int),
        Action::Invest { sector } => "Invest in "@ + sector_name_spec(sector),
        Action::Research { tech } => "Research "@ + tech_name_spec(tech),
        Action::Ally { target_id } => "Ally with country "@ + dec_str_spec(target_id as int),
        Action::Pact { target_id } => "Sign pact with country "@ + dec_str_spec(target_id as int),
        Action::Trade { target_id } => "Trade with country "@ + dec_str_spec(target_id as int),
        Action::Fortify { tile_id } => "Fortify tile "@ + dec_str_spec(tile_id as int),
        Action::Move { tile_id } => "Move to tile "@ + dec_str_spec(tile_id as int),
        Action::Pass => "Pass"@,
    }
}

/// No action describes itself with an empty line.
pub proof fn lemma_description_nonempty(a: Action)
    ensures
        description_spec(a).len() >= 1,
{
    match a {
        Action::Attack { target_id } => {
            reveal_strlit("Attack country ");
            lemma_dec_str_len(target_id as int);
        },
        Action::Invest { sector } => {
            reveal_strlit("Invest in ");
            reveal_strlit("Infrastructure");
            reveal_strlit("Military");
            reveal_strlit("Economy");
            reveal_strlit("Technology");
        },
        Action::Research { tech } => {
            reveal_strlit("Research ");
            reveal_strlit("MilitaryAdvancement");
            reveal_strlit("EconomicEfficiency");
            reveal_strlit("DiplomaticInfluence");
            reveal_strlit("TechnologicalBreakthrough");
        },
        Action::Ally { target_id } => {
            reveal_strlit("Ally with country ");
            lemma_dec_str_len(target_id as int);
        },
        Action::Pact { target_id } => {
            reveal_strlit("Sign pact with country ");
            lemma_dec_str_len(target_id as int);
        },
        Action::Trade { target_id } => {
            reveal_strlit("Trade with country ");
            lemma_dec_str_len(target_id as int);
        },
        Action::Fortify { tile_id } => {
            reveal_strlit("Fortify tile ");
            lemma_dec_str_len(tile_id as int);
        },
        Action::Move { tile_id } => {
            reveal_strlit("Move to tile ");
            lemma_dec_str_len(tile_id as int);
        },
        Action::Pass => {
            reveal_strlit("Pass");
        },
    }
}

impl Action {
    /// One line naming the action and its target.
    pub fn description(&self) -> (r: String)
        ensures
            r@ == description_spec(*self),
    {
        match self {
            Action::Attack { target_id } => {
                let mut s = String::from_str("Attack country ");
                let d = u32_decimal(*target_id);
                s.append(d.as_str());
                s
            },
            Action::Invest { sector } => {
                let mut s = String::from_str("Invest in ");
                s.append(sector_str(*sector));
                s
            },
            Action::Research { tech } => {
                let mut s = String::from_str("Research ");
                s.append(tech_str(*tech));
                s
            },
            Action::Ally { target_id } => {
                let mut s = String::from_str("Ally with country ");
                let d = u32_decimal(*target_id);
                s.append(d.as_str());
                s
            },
            Action::Pact { target_id } => {
                let mut s = String::from_str("Sign pact with country ");
                let d = u32_decimal(*target_id);
                s.append(d.as_str());
                s
            },
            Action::Trade { target_id } => {
                let mut s = String::from_str("Trade with country ");
                let d = u32_decimal(*target_id);
                s.append(d.as_str());
                s
            },
            Action::Fortify { tile_id } => {
                let mut s = String::from_str("Fortify tile ");
                let d = u32_decimal(*tile_id);
                s.append(d.as_str());
                s
            },
            Action::Move { tile_id } => {
                let mut s = String::from_str("Move to tile ");
                let d = u32_decimal(*tile_id);
                s.append(d.as_str());
                s
            },
            Action::Pass => String::from_str("Pass"),
        }
    }
}

/// How many candidates each action family may push into the shortlist.
#[derive(Clone, Copy, Debug, PartialEq, Eq, Structural)]
pub struct PruningConfig {
    pub k_attack: usize,
    pub k_fortify: usize,
    pub k_invest: usize,
    pub k_research: usize,
    pub k_diplomacy: usize,
}

impl PruningConfig {
    /// The engine's default family budgets.
    pub fn new() -> (r: PruningConfig)
        ensures
            r == (PruningConfig {
                k_attack: 3,
                k_fortify: 3,
                k_invest: 2,
                k_research: 2,
                k_diplomacy: 2,
            }),
    {
        PruningConfig { k_attack: 3, k_fortify: 3, k_invest: 2, k_research: 2, k_diplomacy: 2 }
    }
}

impl Default for PruningConfig {
    fn default() -> (r: PruningConfig)
        ensures
            r == (PruningConfig {
                k_attack: 3,
                k_fortify: 3,
                k_invest: 2,
                k_research: 2,
                k_diplomacy: 2,
            }),
    {
        PruningConfig::new()
    }
}

/// A possible action paired with its pruning-heuristic priority.
#[derive(Clone, Copy, Debug, PartialEq, Eq, Structural)]
pub struct ActionCandidate {
    pub action: Action,
    pub priority: i64,
}

impl ActionCandidate {
    pub fn new(action: Action, priority: i64) -> (r: ActionCandidate)
        ensures
            r == (ActionCandidate { action, priority }),
    {
        ActionCandidate { action, priority }
    }
}

/// Index of the best candidate: highest priority, earliest position on ties.
pub open spec fn best_cand_idx(s: Seq<ActionCandidate>) -> int
    decreases s.len(),
{
    if s.len() <= 1 {
        0
    } else {
        let rest = 1 + best_cand_idx(s.drop_first());
        if s[rest].priority > s[0].priority {
            rest
        } else {
            0
        }
    }
}

pub proof fn lemma_best_cand_char(s: Seq<ActionCandidate>)
    requires
        s.len() > 0,
    ensures
        0 <= best_cand_idx(s) < s.len(),
        forall|j: int|
            0 <= j < s.len() ==> (#[trigger] s[j]).priority <= s[best_cand_idx(s)].priority,
        forall|j: int| 0 <= j < best_cand_idx(s) ==> (#[trigger] s[j]).priority < s[best_cand_idx(
            s,
        )].priority,
    decreases s.len(),
{
    if s.len() > 1 {
        lemma_best_cand_char(s.drop_first());
        let rest = 1 + best_cand_idx(s.drop_first());
        assert forall|j: int| 1 <= j < s.len() implies (#[trigger] s[j]).priority <= s[rest].priority by {
            assert(s.drop_first()[j - 1] == s[j]);
            assert(s.drop_first()[rest - 1] == s[rest]);
        }
        assert forall|j: int| 1 <= j < rest implies (#[trigger] s[j]).priority < s[rest].priority by {
            assert(s.drop_first()[j - 1] == s[j]);
            assert(s.drop_first()[rest - 1] == s[rest]);
        }
    }
}

/// A scan that keeps the earliest strict maximum lands exactly on
/// `best_cand_idx`.
pub proof fn lemma_best_cand_unique(s: Seq<ActionCandidate>, m: int)
    requires
        0 <= m < s.len(),
        forall|j: int| 0 <= j < s.len() ==> (#[trigger] s[j]).priority <= s[m].priority,
        forall|j: int| 0 <= j < m ==> (#[trigger] s[j]).priority < s[m].priority,
    ensures
        best_cand_idx(s) == m,
    decreases s.len(),
{
    if s.len() > 1 {
        let rest = 1 + best_cand_idx(s.drop_first());
        lemma_best_cand_char(s.drop_first());
        if m == 0 {
            assert(s.drop_first()[rest - 1] == s[rest]);
            assert(s[rest].priority <= s[0].priority);
        } else {
            assert forall|j: int|
                0 <= j < s.drop_first().len() implies (#[trigger] s.drop_first()[j]).priority <= s.drop_first()[m
                - 1].priority by {
                assert(s.drop_first()[j] == s[j + 1]);
                assert(s.drop_first()[m - 1] == s[m]);
            }
            assert forall|j: int|
                0 <= j < m - 1 implies (#[trigger] s.drop_first()[j]).priority < s.drop_first()[m
                - 1].priority by {
                assert(s.drop_first()[j] == s[j + 1]);
                assert(s.drop_first()[m - 1] == s[m]);
            }
            lemma_best_cand_unique(s.drop_first(), m - 1);
            assert(s.drop_first()[m - 1] == s[m]);
            assert(s[m].priority > s[0].priority);
        }
    }
}

/// The actions of the `k` best candidates, in the order a stable descending
/// sort by priority would put them: repeatedly take the earliest maximum.
pub open spec fn top_k_spec(s: Seq<ActionCandidate>, k: nat) -> Seq<Action>
    decreases k,
{
    if k == 0 || s.len() == 0 {
        Seq::empty()
    } else {
        let i = best_cand_idx(s);
        seq![s[i].action] + top_k_spec(s.remove(i), (k - 1) as nat)
    }
}

/// Keep the `k` best-ranked candidates' actions, first-seen winning ties.
fn take_top_k(cands: Vec<ActionCandidate>, k: usize) -> (r: Vec<Action>)
    ensures
        r@ == top_k_spec(cands@, k as nat),
        r@.len() <= k,
{
    let ghost orig = cands@;
    let mut cur = cands;
    let mut out: Vec<Action> = Vec::new();
    let mut taken: usize = 0;
    while taken < k && cur.len() > 0
        invariant
            taken <= k,
            out@.len() == taken,
            out@ + top_k_spec(cur@, (k - taken) as nat) == top_k_spec(orig, k as nat),
        decreases k - taken,
    {
        let n = cur.len();
        let mut best: usize = 0;
        let mut j: usize = 1;
        while j < n
            invariant
                n == cur@.len(),
                n > 0,
                best < j <= n,
                forall|t: int| 0 <= t < j ==> (#[trigger] cur@[t]).priority <= cur@[best as int].priority,
                forall|t: int| 0 <= t < best ==> (#[trigger] cur@[t]).priority < cur@[best as int].priority,
            decreases n - j,
        {
            if cur[j].priority > cur[best].priority {
                best = j;
            }
            j = j + 1;
        }
        proof {
            lemma_best_cand_unique(cur@, best as int);
        }
        let chosen = cur[best].action;
        out.push(chosen);
        cur.remove(best);
        proof {
            assert(out@ + top_k_spec(cur@, (k - taken - 1) as nat) =~= top_k_spec(orig, k as nat));
        }
        taken = taken + 1;
    }
    proof {
        assert(top_k_spec(cur@, (k - taken) as nat) =~= Seq::<Action>::empty());
        assert(out@ + Seq::<Action>::empty() =~= out@);
    }
    out
}

/// The `k` best candidates themselves, in the order a stable descending
/// sort by priority would put them.
pub open spec fn top_k_cands_spec(s: Seq<ActionCandidate>, k: nat) -> Seq<ActionCandidate>
    decreases k,
{
    if k == 0 || s.len() == 0 {
        Seq::empty()
    } else {
        let i = best_cand_idx(s);
        seq![s[i]] + top_k_cands_spec(s.remove(i), (k - 1) as nat)
    }
}

/// Keep the `k` best-ranked candidates, first-seen winning ties.
pub fn take_top_k_cands(cands: Vec<ActionCandidate>, k: usize) -> (r: Vec<ActionCandidate>)
    ensures
        r@ == top_k_cands_spec(cands@, k as nat),
        r@.len() <= k,
{
    let ghost orig = cands@;
    let mut cur = cands;
    let mut out: Vec<ActionCandidate> = Vec::new();
    let mut taken: usize = 0;
    while taken < k && cur.len() > 0
        invariant
            taken <= k,
            out@.len() == taken,
            out@ + top_k_cands_spec(cur@, (k - taken) as nat) == top_k_cands_spec(orig, k as nat),
        decreases k - taken,
    {
        let n = cur.len();
        let mut best: usize = 0;
        let mut j: usize = 1;
        while j < n
            invariant
                n == cur@.len(),
                n > 0,
                best < j <= n,
                forall|t: int| 0 <= t < j ==> (#[trigger] cur@[t]).priority <= cur@[best as int].priority,
                forall|t: int| 0 <= t < best ==> (#[trigger] cur@[t]).priority < cur@[best as int].priority,
            decreases n - j,
        {
            if cur[j].priority > cur[best].priority {
                best = j;
            }
            j = j + 1;
        }
        proof {
            lemma_best_cand_unique(cur@, best as int);
        }
        let chosen = cur[best];
        out.push(chosen);
        cur.remove(best);
        proof {
            assert(out@ + top_k_cands_spec(cur@, (k - taken - 1) as nat) =~= top_k_cands_spec(
                orig,
                k as nat,
            ));
        }
        taken = taken + 1;
    }
    proof {
        assert(top_k_cands_spec(cur@, (k - taken) as nat) =~= Seq::<ActionCandidate>::empty());
        assert(out@ + Seq::<ActionCandidate>::empty() =~= out@);
    }
    out
}

/// Attack upper bound: half the target's resources plus `0.3` of the
/// hostility-weighted target military.
pub open spec fn attack_priority_spec(nb: Country, e: CountryEdge) -> int {
    fx_mul_spec(nb.resources as int, 500_000) + fx_mul_spec(
        fx_mul_spec(e.hostility as int, nb.m_eff as int),
        300_000,
    )
}

/// Fortification urgency: the magnitude of the tile's threat gradient.
pub open spec fn fortify_priority_spec(t: BorderTile) -> int {
    crate::fixed::fx_abs(t.threat_gradient as int)
}

/// Investment appeal: the matching marginal value; infrastructure counts
/// half the economy value.
pub open spec fn invest_priority_spec(mv: MarginalValues, s: InvestSector) -> int {
    match s {
        InvestSector::Military => mv.military as int,
        InvestSector::Economy => mv.economy as int,
        InvestSector::Technology => mv.tech as int,
        InvestSector::Infrastructure => fx_mul_spec(mv.economy as int, 500_000),
    }
}

/// Research appeal: the matching marginal value scaled by a fixed per-branch
/// multiplier.
pub open spec fn research_priority_spec(mv: MarginalValues, t: TechType) -> int {
    match t {
        TechType::MilitaryAdvancement => fx_mul_spec(mv.military as int, 1_500_000),
        TechType::EconomicEfficiency => fx_mul_spec(mv.economy as int, 1_500_000),
        TechType::DiplomaticInfluence => fx_mul_spec(mv.diplomacy as int, 1_500_000),
        TechType::TechnologicalBreakthrough => fx_mul_spec(mv.tech as int, 2_000_000),
    }
}

/// Diplomacy appeal: current relations shifted to favor friendlier edges.
pub open spec fn diplo_priority_spec(e: CountryEdge) -> int {
    e.relations + 50 * FX_ONE as int
}

/// Attack candidates drawn from the first `n` edges whose targets exist.
pub open spec fn attack_cands_upto(edges: Seq<CountryEdge>, cs: Seq<Country>, n: int) -> Seq<
    ActionCandidate,
>
    decreases n,
{
    if n <= 0 {
        Seq::empty()
    } else {
        let prev = attack_cands_upto(edges, cs, n - 1);
        let e = edges[n - 1];
        if crate::world::first_country_idx(cs, e.neighbor_id) >= 0 {
            prev.push(
                ActionCandidate {
                    action: Action::Attack { target_id: e.neighbor_id },
                    priority: attack_priority_spec(
                        cs[crate::world::first_country_idx(cs, e.neighbor_id)],
                        e,
                    ) as i64,
                },
            )
        } else {
            prev
        }
    }
}

pub open spec fn attack_cands_spec(c: Country, cs: Seq<Country>) -> Seq<ActionCandidate> {
    attack_cands_upto(c.edges@, cs, c.edges@.len() as int)
}

/// Fortification candidates from the first `n` border tiles.
pub open spec fn fortify_cands_upto(tiles: Seq<BorderTile>, n: int) -> Seq<ActionCandidate>
    decreases n,
{
    if n <= 0 {
        Seq::empty()
    } else {
        fortify_cands_upto(tiles, n - 1).push(
            ActionCandidate {
                action: Action::Fortify { tile_id: tiles[n - 1].id },
                priority: fortify_priority_spec(tiles[n - 1]) as i64,
            },
        )
    }
}

pub open spec fn fortify_cands_spec(c: Country) -> Seq<ActionCandidate> {
    fortify_cands_upto(c.border_tiles@, c.border_tiles@.len() as int)
}

/// The four investment candidates, one per sector.
pub open spec fn invest_cands_spec(mv: MarginalValues) -> Seq<ActionCandidate> {
    seq![
        ActionCandidate {
            action: Action::Invest { sector: InvestSector::Infrastructure },
            priority: invest_priority_spec(mv, InvestSector::Infrastructure) as i64,
        },
        ActionCandidate {
            action: Action::Invest { sector: InvestSector::Military },
            priority: invest_priority_spec(mv, InvestSector::Military) as i64,
        },
        ActionCandidate {
            action: Action::Invest { sector: InvestSector::Economy },
            priority: invest_priority_spec(mv, InvestSector::Economy) as i64,
        },
        ActionCandidate {
            action: Action::Invest { sector: InvestSector::Technology },
            priority: invest_priority_spec(mv, InvestSector::Technology) as i64,
        },
    ]
}

/// The four research candidates, one per technology branch.
pub open spec fn research_cands_spec(mv: MarginalValues) -> Seq<ActionCandidate> {
    seq![
        ActionCandidate {
            action: Action::Research { tech: TechType::MilitaryAdvancement },
            priority: research_priority_spec(mv, TechType::MilitaryAdvancement) as i64,
        },
        ActionCandidate {
            action: Action::Research { tech: TechType::EconomicEfficiency },
            priority: research_priority_spec(mv, TechType::EconomicEfficiency) as i64,
        },
        ActionCandidate {
            action: Action::Research { tech: TechType::DiplomaticInfluence },
            priority: research_priority_spec(mv, TechType::DiplomaticInfluence) as i64,
        },
        ActionCandidate {
            action: Action::Research { tech: TechType::TechnologicalBreakthrough },
            priority: research_priority_spec(mv, TechType::TechnologicalBreakthrough) as i64,
        },
    ]
}

/// Alliance proposals drawn from the first `n` edges whose relations are not
/// too hostile.
pub open spec fn diplo_cands_upto(edges: Seq<CountryEdge>, n: int) -> Seq<ActionCandidate>
    decreases n,
{
    if n <= 0 {
        Seq::empty()
    } else {
        let prev = diplo_cands_upto(edges, n - 1);
        let e = edges[n - 1];
        if e.relations >= -20 * FX_ONE {
            prev.push(
                ActionCandidate {
                    action: Action::Ally { target_id: e.neighbor_id },
                    priority: diplo_priority_spec(e) as i64,
                },
            )
        } else {
            prev
        }
    }
}

pub open spec fn diplo_cands_spec(c: Country) -> Seq<ActionCandidate> {
    diplo_cands_upto(c.edges@, c.edges@.len() as int)
}

/// The scoring shortlist: `Pass`, then the top candidates of each family in
/// a fixed family order, each family ranked by its own heuristic.
pub open spec fn shortlist_spec(c: Country, cs: Seq<Country>, cfg: PruningConfig) -> Seq<Action> {
    seq![Action::Pass] + top_k_spec(attack_cands_spec(c, cs), cfg.k_attack as nat) + top_k_spec(
        fortify_cands_spec(c),
        cfg.k_fortify as nat,
    ) + top_k_spec(invest_cands_spec(c.marginal_values), cfg.k_invest as nat) + top_k_spec(
        research_cands_spec(c.marginal_values),
        cfg.k_research as nat,
    ) + top_k_spec(diplo_cands_spec(c), cfg.k_diplomacy as nat)
}

/// Build the candidate shortlist for one country: always `Pass`, then at
/// most `k` survivors per family, ranked by the family's heuristic with
/// first-seen order breaking ties.
pub fn generate_shortlist(
    country_id: u32,
    country: &Country,
    world: &WorldState,
    config: &PruningConfig,
) -> (r: Vec<Action>)
    requires
        country.wf(),
        world.wf(),
    ensures
        r@ == shortlist_spec(*country, world.countries@, *config),
        r@.len() >= 1,
        r@[0] == Action::Pass,
{
    let mut out: Vec<Action> = Vec::new();
    out.push(Action::Pass);

    // Attack candidates: one per edge whose target is registered.
    let mut attack_cands: Vec<ActionCandidate> = Vec::new();
    let ne = country.edges.len();
    let mut i: usize = 0;
    while i < ne
        invariant
            i <= ne,
            ne == country.edges@.len(),
            country.wf(),
            world.wf(),
            attack_cands@ == attack_cands_upto(country.edges@, world.countries@, i as int),
        decreases ne - i,
    {
        let e = country.edges[i];
        proof {
            assert(country.edges@[i as int].wf());
        }
        match world.get_country(e.neighbor_id) {
            Some(nb) => {
                proof {
                    crate::world::lemma_first_country_idx_char(world.countries@, e.neighbor_id);
                    assert(nb.wf());
                }
                let res_part = fx_mul(nb.resources, 500_000);
                let hm = fx_mul(e.hostility, nb.m_eff);
                proof {
                    lemma_fx_mul_le(nb.resources as int, 500_000, FX_STAT_CAP as int, 500_000);
                    lemma_fx_mul_le(
                        e.hostility as int,
                        nb.m_eff as int,
                        FX_ONE as int,
                        FX_STAT_CAP as int,
                    );
                }
                let threat_part = fx_mul(hm, 300_000);
                proof {
                    lemma_fx_mul_le(hm as int, 300_000, 2_000_000_000_000, 300_000);
                }
                attack_cands.push(
                    ActionCandidate {
                        action: Action::Attack { target_id: e.neighbor_id },
                        priority: res_part + threat_part,
                    },
                );
            },
            None => {
            },
        }
        i = i + 1;
    }
    let mut top_attack = take_top_k(attack_cands, config.k_attack);
    out.append(&mut top_attack);

    // Fortification candidates: one per border tile.
    let mut fort_cands: Vec<ActionCandidate> = Vec::new();
    let nt = country.border_tiles.len();
    let mut t: usize = 0;
    while t < nt
        invariant
            t <= nt,
            nt == country.border_tiles@.len(),
            country.wf(),
            fort_cands@ == fortify_cands_upto(country.border_tiles@, t as int),
        decreases nt - t,
    {
        let tile = country.border_tiles[t];
        proof {
            assert(country.border_tiles@[t as int].wf());
        }
        let g: i64 = if tile.threat_gradient < 0 {
            -tile.threat_gradient
        } else {
            tile.threat_gradient
        };
        fort_cands.push(ActionCandidate { action: Action::Fortify { tile_id: tile.id }, priority: g });
        t = t + 1;
    }
    let mut top_fort = take_top_k(fort_cands, config.k_fortify);
    out.append(&mut top_fort);

    // Investment candidates: the four sectors.
    let mv = country.marginal_values;
    let half_eco = fx_mul(mv.economy, 500_000);
    proof {
        lemma_fx_mul_le(mv.economy as int, 500_000, 10 * FX_ONE as int, 500_000);
    }
    let mut invest_cands: Vec<ActionCandidate> = Vec::new();
    invest_cands.push(
        ActionCandidate {
            action: Action::Invest { sector: InvestSector::Infrastructure },
            priority: half_eco,
        },
    );
    invest_cands.push(
        ActionCandidate {
            action: Action::Invest { sector: InvestSector::Military },
            priority: mv.military,
        },
    );
    invest_cands.push(
        ActionCandidate {
            action: Action::Invest { sector: InvestSector::Economy },
            priority: mv.economy,
        },
    );
    invest_cands.push(
        ActionCandidate {
            action: Action::Invest { sector: InvestSector::Technology },
            priority: mv.tech,
        },
    );
    proof {
        assert(invest_cands@ =~= invest_cands_spec(mv));
    }
    let mut top_invest = take_top_k(invest_cands, config.k_invest);
    out.append(&mut top_invest);

    // Research candidates: the four technology branches.
    let rp_mil = fx_mul(mv.military, 1_500_000);
    let rp_eco = fx_mul(mv.economy, 1_500_000);
    let rp_dip = fx_mul(mv.diplomacy, 1_500_000);
    let rp_tec = fx_mul(mv.tech, 2_000_000);
    proof {
        lemma_fx_mul_le(mv.military as int, 1_500_000, 10 * FX_ONE as int, 1_500_000);
        lemma_fx_mul_le(mv.economy as int, 1_500_000, 10 * FX_ONE as int, 1_500_000);
        lemma_fx_mul_le(mv.diplomacy as int, 1_500_000, 10 * FX_ONE as int, 1_500_000);
        lemma_fx_mul_le(mv.tech as int, 2_000_000, 10 * FX_ONE as int, 2_000_000);
    }
    let mut research_cands: Vec<ActionCandidate> = Vec::new();
    research_cands.push(
        ActionCandidate {
            action: Action::Research { tech: TechType::MilitaryAdvancement },
            priority: rp_mil,
        },
    );
    research_cands.push(
        ActionCandidate {
            action: Action::Research { tech: TechType::EconomicEfficiency },
            priority: rp_eco,
        },
    );
    research_cands.push(
        ActionCandidate {
            action: Action::Research { tech: TechType::DiplomaticInfluence },
            priority: rp_dip,
        },
    );
    research_cands.push(
        ActionCandidate {
            action: Action::Research { tech: TechType::TechnologicalBreakthrough },
            priority: rp_tec,
        },
    );
    proof {
        assert(research_cands@ =~= research_cands_spec(mv));
    }
    let mut top_research = take_top_k(research_cands, config.k_research);
    out.append(&mut top_research);

    // Diplomacy candidates: alliance proposals along not-too-hostile edges.
    let mut diplo_cands: Vec<ActionCandidate> = Vec::new();
    let mut d: usize = 0;
    while d < ne
        invariant
            d <= ne,
            ne == country.edges@.len(),
            country.wf(),
            diplo_cands@ == diplo_cands_upto(country.edges@, d as int),
        decreases ne - d,
    {
        let e = country.edges[d];
        proof {
            assert(country.edges@[d as int].wf());
        }
        if e.relations >= -20 * FX_ONE {
            diplo_cands.push(
                ActionCandidate {
                    action: Action::Ally { target_id: e.neighbor_id },
                    priority: e.relations + 50 * FX_ONE,
                },
            );
        }
        d = d + 1;
    }
    let mut top_diplo = take_top_k(diplo_cands, config.k_diplomacy);
    out.append(&mut top_diplo);

    proof {
        assert(out@ =~= shortlist_spec(*country, world.countries@, *config));
    }
    out
}

} // verus!
