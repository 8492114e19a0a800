//! Battle entities: a species record, a configured roster entity, and the
//! derived stat computations.

use vstd::arithmetic::div_mod::lemma_div_is_ordered;
use vstd::pervasive::VecAdditionalExecFns;
use vstd::prelude::*;

use crate::bytes::bytes_equal;
use crate::bytes::copy_bytes;
use crate::moves::Category;
use crate::moves::Move;
use crate::moves::MoveModel;
use crate::moves::Style;
use crate::moves::StyleTriad;
use crate::numeric::divide_pow100;
use crate::numeric::has_zero;
use crate::numeric::ints_of;
use crate::numeric::lemma_nonzero_product_ge_one;
use crate::numeric::lemma_pow100_pos;
use crate::numeric::lemma_product_no_zero;
use crate::numeric::lemma_product_nonneg;
use crate::numeric::lemma_product_with_zero;
use crate::numeric::nonzero_product;
use crate::numeric::pow100;
use crate::numeric::product_hundredths;
use crate::numeric::product_of;
use crate::numeric::saturate_to_i32;
use crate::random::draw_in;
use crate::stats::Nature;
use crate::stats::Stat;
use crate::stats::StatBlock;
use crate::stats::base_action_time;
use crate::stats::base_action_time_spec;
use crate::stats::effort_bonus;
use crate::stats::effort_bonus_value;
use crate::stats::effort_multiplier_spec;
use crate::stats::lemma_sqrt_floor_monotone;
use crate::stats::lemma_sqrt_floor_unique;
use crate::stats::nature_multiplier_hundredths;
use crate::stats::sqrt_floor;
use crate::stats::stat_of;
use crate::status::AppliedStatus;
use crate::status::Effect;
use crate::status::StatusCondition;
use crate::status::StatusConditionModel;
use crate::status::Volatility;
use crate::status::effect_crit_bonus;
use crate::types::Type;
use crate::types::TypeModel;
use crate::types::TypePair;
use crate::types::TypePairModel;
use crate::types::pair_has_type;
use crate::types::pair_multiplier_hundredths;

verus! {

/// A species: identifier, base stat vector, and typing.
pub struct Species {
    pub id: Vec<u8>,
    pub base_stats: StatBlock,
    pub types: TypePair,
}

/// The mathematical model of a [`Species`].
#[verifier::ext_equal]
pub struct SpeciesModel {
    pub id: Seq<u8>,
    pub base_stats: StatBlock,
    pub types: TypePairModel,
}

impl View for Species {
    type V = SpeciesModel;

    open spec fn view(&self) -> SpeciesModel {
        SpeciesModel { id: self.id@, base_stats: self.base_stats, types: self.types@ }
    }
}

impl Species {
    /// A fresh copy of this species record.
    pub fn duplicate(&self) -> (r: Self)
        ensures
            r@ == self@,
    {
        Species {
            id: copy_bytes(&self.id),
            base_stats: self.base_stats,
            types: self.types.duplicate(),
        }
    }
}

/// Which battle participant an effect refers to.
#[derive(Debug, Hash, Clone, Copy, PartialEq, Eq, Structural)]
pub enum Side {
    User,
    Target,
}

/// A configured roster entity: a species plus its individual configuration.
pub struct Pokemon {
    pub species: Species,
    pub nickname: Option<Vec<u8>>,
    pub is_shiny: bool,
    pub level: u8,
    pub nature: Nature,
    pub effort_levels: StatBlock,
    pub moveset: Vec<Move>,
}

/// The mathematical model of a [`Pokemon`].
#[verifier::ext_equal]
pub struct PokemonModel {
    pub species: SpeciesModel,
    pub nickname: Option<Seq<u8>>,
    pub is_shiny: bool,
    pub level: u8,
    pub nature: Nature,
    pub effort_levels: StatBlock,
    pub moveset: Seq<MoveModel>,
}

impl View for Pokemon {
    type V = PokemonModel;

    open spec fn view(&self) -> PokemonModel {
        PokemonModel {
            species: self.species@,
            nickname: match self.nickname {
                Some(ref n) => Some(n@),
                None => None,
            },
            is_shiny: self.is_shiny,
            level: self.level,
            nature: self.nature,
            effort_levels: self.effort_levels,
            moveset: self.moveset@.map_values(|m: Move| m@),
        }
    }
}

/// Whether the entity's configuration admits stat computation: every effort
/// level within 0..=10 (anything else is a caller programming error) and
/// every base stat within 0..=100_000 (a machine limit that keeps every
/// intermediate product within its integer type).
pub open spec fn valid_stats_config(pm: PokemonModel) -> bool {
    &&& forall|s: Stat| 0 <= #[trigger] stat_of(pm.effort_levels, s) <= 10
    &&& forall|s: Stat| 0 <= #[trigger] stat_of(pm.species.base_stats, s) <= 100_000
}

/// The entity's computed value of `stat`, before any battle modification:
/// for HP, `floor(level/100 * base + base + level)` plus the effort bonus;
/// for any other stat, `floor((level/50 + 1) * base / 1.5 * nature)` plus the
/// effort bonus, where `nature` is the nature's multiplier for the stat.
/// Every floor is taken before the (already integer) effort bonus is added.
pub open spec fn calculate_stat_spec(pm: PokemonModel, stat: Stat) -> int {
    let base = stat_of(pm.species.base_stats, stat) as int;
    let level = pm.level as int;
    let bonus = effort_bonus_value(stat_of(pm.effort_levels, stat) as int, level, base);
    if stat == Stat::Hp {
        (level * base) / 100 + base + level + bonus
    } else {
        ((level + 50) * base * nature_multiplier_hundredths(pm.nature, stat)) / 7500 + bonus
    }
}

/// The effort bonus of a valid configuration is at most 3300.
proof fn lemma_effort_bonus_bound(e: int, level: int, base: int)
    requires
        0 <= e <= 10,
        0 <= level <= 255,
        0 <= base <= 100_000,
    ensures
        0 <= effort_bonus_value(e, level, base) <= 3300,
{
    let t = effort_multiplier_spec(e);
    assert(0 <= t <= 25);
    assert(16 * t * t * base <= 1_000_000_000) by (nonlinear_arith)
        requires
            0 <= t <= 25,
            0 <= base <= 100_000,
    ;
    assert(16 * t * t * base >= 0) by (nonlinear_arith)
        requires
            t >= 0,
            base >= 0,
    ;
    lemma_sqrt_floor_monotone((16 * t * t * base) as nat, 1_000_000_000nat);
    assert(31622 * 31622 <= 1_000_000_000 < 31623 * 31623) by (nonlinear_arith);
    lemma_sqrt_floor_unique(1_000_000_000nat, 31622nat);
    let num = sqrt_floor((16 * t * t * base) as nat) + 4 * level + 5;
    assert(num <= 31622 + 4 * 255 + 5);
    lemma_div_is_ordered(num, 32647, 10);
    assert(num >= 0);
    assert(num / 10 >= 0);
}

/// The bounds of a computed stat under a valid configuration.
pub proof fn lemma_calculate_stat_bounds(pm: PokemonModel, stat: Stat)
    requires
        valid_stats_config(pm),
    ensures
        0 <= calculate_stat_spec(pm, stat) <= 800_000,
{
    let base = stat_of(pm.species.base_stats, stat) as int;
    let level = pm.level as int;
    let e = stat_of(pm.effort_levels, stat) as int;
    lemma_effort_bonus_bound(e, level, base);
    if stat == Stat::Hp {
        assert(0 <= level * base <= 255 * 100_000) by (nonlinear_arith)
            requires
                0 <= level <= 255,
                0 <= base <= 100_000,
        ;
        lemma_div_is_ordered(0, level * base, 100);
        lemma_div_is_ordered(level * base, 255int * 100_000, 100);
    } else {
        let m = nature_multiplier_hundredths(pm.nature, stat);
        assert(90 <= m <= 110);
        assert(0 <= (level + 50) * base * m <= 305 * 100_000 * 110) by (nonlinear_arith)
            requires
                0 <= level <= 255,
                0 <= base <= 100_000,
                90 <= m <= 110,
        ;
        lemma_div_is_ordered(0, (level + 50) * base * m, 7500);
        lemma_div_is_ordered((level + 50) * base * m, 305int * 100_000 * 110, 7500);
    }
}

impl Pokemon {
    /// A roster entity of the given species with the default configuration:
    /// no nickname, not shiny, level 100, the skew-free nature, full effort
    /// in every stat, and an empty moveset.
    pub fn new(species: Species) -> (r: Self)
        ensures
            r.species == species,
            r.nickname is None,
            !r.is_shiny,
            r.level == 100,
            r.nature.increased == Stat::Spe && r.nature.decreased == Stat::Spe,
            forall|s: Stat| stat_of(r.effort_levels, s) == 10,
            r.moveset@ == Seq::<Move>::empty(),
    {
        Pokemon {
            species,
            nickname: None,
            is_shiny: false,
            level: 100,
            nature: Nature::default(),
            effort_levels: StatBlock::all(10),
            moveset: Vec::new(),
        }
    }

    /// The entity's display name: its nickname if it has one, else its
    /// species identifier.
    pub fn name(&self) -> (r: &Vec<u8>)
        ensures
            self.nickname matches Some(n) ==> r@ == n@,
            self.nickname is None ==> r@ == self.species.id@,
    {
        match &self.nickname {
            Some(nickname) => nickname,
            None => &self.species.id,
        }
    }

    /// The entity's full computed stat vector.
    pub fn stats(&self) -> (r: StatBlock)
        requires
            valid_stats_config(self@),
        ensures
            r.hp == calculate_stat_spec(self@, Stat::Hp),
            r.atk == calculate_stat_spec(self@, Stat::Atk),
            r.def == calculate_stat_spec(self@, Stat::Def),
            r.spatk == calculate_stat_spec(self@, Stat::SpAtk),
            r.spdef == calculate_stat_spec(self@, Stat::SpDef),
            r.spe == calculate_stat_spec(self@, Stat::Spe),
    {
        StatBlock {
            hp: self.calculate_stat(Stat::Hp),
            atk: self.calculate_stat(Stat::Atk),
            def: self.calculate_stat(Stat::Def),
            spatk: self.calculate_stat(Stat::SpAtk),
            spdef: self.calculate_stat(Stat::SpDef),
            spe: self.calculate_stat(Stat::Spe),
        }
    }

    /// The entity's computed value of one stat.
    fn calculate_stat(&self, stat: Stat) -> (r: i32)
        requires
            valid_stats_config(self@),
        ensures
            r == calculate_stat_spec(self@, stat),
            0 <= r <= 800_000,
    {
        let base = self.species.base_stats.get(stat);
        let level = self.level;
        let effort = self.effort_levels.get(stat);
        assert(stat_of(self@.species.base_stats, stat) == base);
        assert(stat_of(self@.effort_levels, stat) == effort);
        let bonus_opt = effort_bonus(effort, level, base);
        let bonus = match bonus_opt {
            Some(b) => b,
            None => {
                proof {
                    assert(false);
                }
                0
            },
        };
        proof {
            lemma_effort_bonus_bound(effort as int, level as int, base as int);
            lemma_calculate_stat_bounds(self@, stat);
        }
        if stat == Stat::Hp {
            proof {
                assert(0 <= (level as int) * (base as int) <= 255 * 100_000) by (nonlinear_arith)
                    requires
                        0 <= level as int <= 255,
                        0 <= base as int <= 100_000,
                ;
            }
            let main: u64 = ((level as u64) * (base as u64)) / 100;
            proof {
                lemma_div_is_ordered((level as int) * (base as int), 255int * 100_000, 100);
                lemma_div_is_ordered(0, (level as int) * (base as int), 100);
            }
            (main as i32) + base + (level as i32) + bonus
        } else {
            let m = self.nature.multiplier(stat);
            proof {
                assert(0 <= ((level as int) + 50) * (base as int) * (m as int) <= 305 * 100_000
                    * 110) by (nonlinear_arith)
                    requires
                        0 <= level as int <= 255,
                        0 <= base as int <= 100_000,
                        90 <= m as int <= 110,
                ;
            }
            let main: u64 = (((level as u64) + 50) * (base as u64)) * (m as u64) / 7500;
            proof {
                lemma_div_is_ordered(
                    ((level as int) + 50) * (base as int) * (m as int),
                    305int * 100_000 * 110,
                    7500,
                );
                lemma_div_is_ordered(0, ((level as int) + 50) * (base as int) * (m as int), 7500);
            }
            (main as i32) + bonus
        }
    }

    /// This entity with the given nickname.
    pub fn nickname(self, nickname: Option<Vec<u8>>) -> (r: Self)
        ensures
            r == (Pokemon { nickname, ..self }),
    {
        Pokemon { nickname, ..self }
    }

    /// This entity with the given shininess.
    pub fn set_shiny(self, is_shiny: bool) -> (r: Self)
        ensures
            r == (Pokemon { is_shiny, ..self }),
    {
        Pokemon { is_shiny, ..self }
    }

    /// This entity at the given level.
    pub fn level(self, level: u8) -> (r: Self)
        ensures
            r == (Pokemon { level, ..self }),
    {
        Pokemon { level, ..self }
    }

    /// This entity with the given nature.
    pub fn nature(self, nature: Nature) -> (r: Self)
        ensures
            r == (Pokemon { nature, ..self }),
    {
        Pokemon { nature, ..self }
    }

    /// This entity with the given effort investment.
    pub fn effort_levels(self, effort_levels: StatBlock) -> (r: Self)
        ensures
            r == (Pokemon { effort_levels, ..self }),
    {
        Pokemon { effort_levels, ..self }
    }

    /// This entity with `mv` added to its moveset; a move whose identifier is
    /// already present is collapsed into the existing entry.
    pub fn add_move(self, mv: Move) -> (r: Self)
        ensures
            r@ == add_move_model(self@, mv@),
    {
        let ghost pm = self@;
        let mut found = false;
        let mut i: usize = 0;
        while i < self.moveset.len()
            invariant
                i <= self.moveset.len(),
                pm == self@,
                found == exists|j: int| 0 <= j < i && #[trigger] pm.moveset[j].id == mv.id@,
            decreases self.moveset.len() - i,
        {
            if bytes_equal(&self.moveset[i].id, &mv.id) {
                found = true;
                proof {
                    assert(pm.moveset[i as int].id == mv.id@);
                }
            }
            i += 1;
        }
        proof {
            assert(found == moveset_contains_id(pm.moveset, mv@.id));
        }
        if found {
            self
        } else {
            let mut r = self;
            r.moveset.push(mv);
            proof {
                assert(r@.moveset =~= pm.moveset.push(mv@));
                assert(r@ =~= add_move_model(pm, mv@));
            }
            r
        }
    }

    /// This entity with every move of `moves` added in order.
    pub fn add_moves(self, moves: Vec<Move>) -> (r: Self)
        ensures
            r@ == add_all_moves_model(self@, moves@.map_values(|m: Move| m@)),
    {
        let mut current = self;
        let mut rest = moves;
        let ghost goal = add_all_moves_model(current@, rest@.map_values(|m: Move| m@));
        while rest.len() > 0
            invariant
                add_all_moves_model(current@, rest@.map_values(|m: Move| m@)) == goal,
            decreases rest.len(),
        {
            let ghost old_views = rest@.map_values(|m: Move| m@);
            let mv = rest.remove(0);
            proof {
                assert(rest@.map_values(|m: Move| m@) =~= old_views.skip(1));
                assert(add_all_moves_model(current@, old_views) == add_all_moves_model(
                    add_move_model(current@, mv@),
                    old_views.skip(1),
                ));
            }
            current = current.add_move(mv);
        }
        current
    }

    /// The action-time tier of the entity's computed speed.
    pub fn base_action_time(&self) -> (r: i32)
        requires
            valid_stats_config(self@),
        ensures
            r == base_action_time_spec(calculate_stat_spec(self@, Stat::Spe)),
    {
        base_action_time(self.stats().spe)
    }
}

/// Whether the moveset holds a move with identifier `id`.
pub open spec fn moveset_contains_id(ms: Seq<MoveModel>, id: Seq<u8>) -> bool {
    exists|j: int| 0 <= j < ms.len() && ms[j].id == id
}

/// What adding one move to an entity's moveset yields: the entity unchanged
/// when a move with the same identifier is already present, else the entity
/// with the move appended.
pub open spec fn add_move_model(pm: PokemonModel, mv: MoveModel) -> PokemonModel {
    if moveset_contains_id(pm.moveset, mv.id) {
        pm
    } else {
        PokemonModel { moveset: pm.moveset.push(mv), ..pm }
    }
}

/// What adding each move of `ms`, in order, yields.
pub open spec fn add_all_moves_model(pm: PokemonModel, ms: Seq<MoveModel>) -> PokemonModel
    decreases ms.len(),
{
    if ms.len() == 0 {
        pm
    } else {
        add_all_moves_model(add_move_model(pm, ms[0]), ms.skip(1))
    }
}

/// A roster entity's runtime battle state: accumulated damage, the single
/// non-volatile status slot, and the volatile status collection, keyed by
/// status identifier.
pub struct BattlePokemon {
    pub pokemon: Pokemon,
    pub damage: i32,
    pub action_time: i32,
    pub non_volatile_status: Option<AppliedStatus>,
    pub volatile_statuses: Vec<AppliedStatus>,
}

/// The entity's active statuses: the non-volatile occupant first, then the
/// volatile entries in insertion order.
pub open spec fn active_statuses(bp: BattlePokemon) -> Seq<AppliedStatus> {
    (match bp.non_volatile_status {
        Some(st) => seq![st],
        None => Seq::<AppliedStatus>::empty(),
    }) + bp.volatile_statuses@
}

/// The effects of a run of applied statuses, concatenated in order.
pub open spec fn effects_of_statuses(s: Seq<AppliedStatus>) -> Seq<Effect>
    decreases s.len(),
{
    if s.len() == 0 {
        Seq::<Effect>::empty()
    } else {
        s[0].condition.effects@ + effects_of_statuses(s.skip(1))
    }
}

/// All effects currently in force on the entity.
pub open spec fn active_effects(bp: BattlePokemon) -> Seq<Effect> {
    effects_of_statuses(active_statuses(bp))
}

proof fn lemma_effects_of_snoc(s: Seq<AppliedStatus>, st: AppliedStatus)
    ensures
        effects_of_statuses(s.push(st)) == effects_of_statuses(s) + st.condition.effects@,
    decreases s.len(),
{
    if s.len() == 0 {
        assert(s.push(st)[0] == st);
        assert(s.push(st).skip(1) =~= Seq::<AppliedStatus>::empty());
        assert(effects_of_statuses(Seq::<AppliedStatus>::empty())
            == Seq::<Effect>::empty());
        assert(effects_of_statuses(s.push(st)) == st.condition.effects@
            + Seq::<Effect>::empty());
        assert(st.condition.effects@ + Seq::<Effect>::empty() =~= st.condition.effects@);
        assert(effects_of_statuses(s) + st.condition.effects@ =~= st.condition.effects@);
    } else {
        lemma_effects_of_snoc(s.skip(1), st);
        assert(s.push(st).skip(1) =~= s.skip(1).push(st));
        assert(s.push(st)[0] == s[0]);
        assert(s[0].condition.effects@ + (effects_of_statuses(s.skip(1)) + st.condition.effects@)
            =~= (s[0].condition.effects@ + effects_of_statuses(s.skip(1)))
            + st.condition.effects@);
    }
}

/// Append every effect of `effs` to `out`.
fn push_all_effects(out: &mut Vec<Effect>, effs: &Vec<Effect>)
    ensures
        final(out)@ == old(out)@ + effs@,
{
    let mut i: usize = 0;
    while i < effs.len()
        invariant
            i <= effs.len(),
            out@ == old(out)@ + effs@.take(i as int),
        decreases effs.len() - i,
    {
        out.push(effs[i]);
        proof {
            assert(old(out)@ + effs@.take(i + 1 as int) =~= (old(out)@ + effs@.take(i as int)).push(
                effs@[i as int],
            ));
        }
        i += 1;
    }
    proof {
        assert(effs@.take(effs@.len() as int) =~= effs@);
    }
}

/// Whether a status condition cannot land on an entity with typing `types`:
/// some owned type appears in the condition's immune-type list.
pub open spec fn condition_blocked(types: TypePairModel, cm: StatusConditionModel) -> bool {
    exists|i: int| 0 <= i < cm.immune_types.len() && pair_has_type(types, cm.immune_types[i].id)
}

/// What replacing-or-inserting an applied status by its condition identifier
/// yields: the first entry with the same identifier is replaced in place, and
/// with no such entry the status is appended.
pub open spec fn upsert_status(s: Seq<AppliedStatus>, a: AppliedStatus) -> Seq<AppliedStatus>
    decreases s.len(),
{
    if s.len() == 0 {
        seq![a]
    } else if s[0].condition.id@ == a.condition.id@ {
        seq![a] + s.skip(1)
    } else {
        seq![s[0]] + upsert_status(s.skip(1), a)
    }
}

proof fn lemma_upsert_at(s: Seq<AppliedStatus>, a: AppliedStatus, i: int)
    requires
        0 <= i < s.len(),
        s[i].condition.id@ == a.condition.id@,
        forall|j: int| 0 <= j < i ==> s[j].condition.id@ != a.condition.id@,
    ensures
        upsert_status(s, a) == s.update(i, a),
    decreases i,
{
    if i == 0 {
        assert(seq![a] + s.skip(1) =~= s.update(0, a));
    } else {
        assert(s[0].condition.id@ != a.condition.id@);
        assert(s.skip(1)[i - 1].condition.id@ == a.condition.id@);
        assert(forall|j: int| 0 <= j < i - 1 ==> s.skip(1)[j].condition.id@ != a.condition.id@);
        lemma_upsert_at(s.skip(1), a, i - 1);
        assert(seq![s[0]] + s.skip(1).update(i - 1, a) =~= s.update(i, a));
    }
}

proof fn lemma_upsert_absent(s: Seq<AppliedStatus>, a: AppliedStatus)
    requires
        forall|j: int| 0 <= j < s.len() ==> s[j].condition.id@ != a.condition.id@,
    ensures
        upsert_status(s, a) == s.push(a),
    decreases s.len(),
{
    if s.len() == 0 {
        assert(seq![a] =~= s.push(a));
    } else {
        assert(forall|j: int|
            0 <= j < s.skip(1).len() ==> s.skip(1)[j].condition.id@ != a.condition.id@);
        lemma_upsert_absent(s.skip(1), a);
        assert(seq![s[0]] + s.skip(1).push(a) =~= s.push(a));
    }
}

/// The first index of `v` holding a status with condition identifier `id`.
fn find_status_index(v: &Vec<AppliedStatus>, id: &Vec<u8>) -> (r: Option<usize>)
    ensures
        match r {
            Some(i) => i < v@.len() && v@[i as int].condition.id@ == id@ && forall|j: int|
                0 <= j < i ==> v@[j].condition.id@ != id@,
            None => forall|j: int| 0 <= j < v@.len() ==> v@[j].condition.id@ != id@,
        },
{
    let mut at: usize = 0;
    while at < v.len()
        invariant
            at <= v.len(),
            forall|j: int| 0 <= j < at ==> v@[j].condition.id@ != id@,
        decreases v.len() - at,
    {
        if bytes_equal(&v[at].condition.id, id) {
            return Some(at);
        }
        at += 1;
    }
    None
}

/// An applied status after one tick: its duration spent by one turn.
pub open spec fn tick_applied(st: AppliedStatus) -> AppliedStatus {
    AppliedStatus { duration: (st.duration - 1) as i32, ..st }
}

/// What one tick does to the non-volatile slot: an occupant whose duration
/// reaches 0 is removed, any other is decremented in place.
pub open spec fn tick_nonvolatile(o: Option<AppliedStatus>) -> Option<AppliedStatus> {
    match o {
        None => None,
        Some(st) => if st.duration <= 1 {
            None
        } else {
            Some(tick_applied(st))
        },
    }
}

/// What one tick does to a run of applied statuses: each duration is
/// decremented, and every status whose duration reaches 0 is removed.
pub open spec fn tick_statuses_seq(s: Seq<AppliedStatus>) -> Seq<AppliedStatus>
    decreases s.len(),
{
    if s.len() == 0 {
        Seq::<AppliedStatus>::empty()
    } else if s[0].duration <= 1 {
        tick_statuses_seq(s.skip(1))
    } else {
        seq![tick_applied(s[0])] + tick_statuses_seq(s.skip(1))
    }
}

/// The statuses of `s` whose duration survives one more tick, in order.
pub open spec fn surviving_statuses(s: Seq<AppliedStatus>) -> Seq<AppliedStatus>
    decreases s.len(),
{
    if s.len() == 0 {
        Seq::<AppliedStatus>::empty()
    } else if s[0].duration >= 2 {
        seq![s[0]] + surviving_statuses(s.skip(1))
    } else {
        surviving_statuses(s.skip(1))
    }
}

/// A tick removes an applied status exactly when its duration transitions to
/// 0, never before and never after: over statuses whose durations are all at
/// least 1, the statuses left after a tick are exactly those whose duration
/// was at least 2, each kept in order with its duration decremented, and a
/// status is dropped exactly when its duration was 1.
pub proof fn lemma_tick_removes_exactly_at_zero(s: Seq<AppliedStatus>)
    requires
        forall|i: int| 0 <= i < s.len() ==> s[i].duration >= 1,
    ensures
        tick_statuses_seq(s) == surviving_statuses(s).map_values(
            |st: AppliedStatus| tick_applied(st),
        ),
    decreases s.len(),
{
    let f = |st: AppliedStatus| tick_applied(st);
    if s.len() > 0 {
        assert(forall|i: int| 0 <= i < s.skip(1).len() ==> s.skip(1)[i].duration >= 1);
        lemma_tick_removes_exactly_at_zero(s.skip(1));
        if s[0].duration >= 2 {
            assert((seq![s[0]] + surviving_statuses(s.skip(1))).map_values(f) =~= seq![f(s[0])]
                + surviving_statuses(s.skip(1)).map_values(f));
            assert(tick_statuses_seq(s) =~= seq![tick_applied(s[0])] + tick_statuses_seq(
                s.skip(1),
            ));
        }
    } else {
        assert(surviving_statuses(s).map_values(f) =~= Seq::<AppliedStatus>::empty());
    }
}

impl BattlePokemon {
    /// A fresh battle entity: no damage taken, no statuses, and its action
    /// time taken from its computed speed.
    pub fn new(pokemon: Pokemon) -> (r: Self)
        requires
            valid_stats_config(pokemon@),
        ensures
            r.pokemon == pokemon,
            r.damage == 0,
            r.action_time == base_action_time_spec(calculate_stat_spec(pokemon@, Stat::Spe)),
            r.non_volatile_status is None,
            r.volatile_statuses@ == Seq::<AppliedStatus>::empty(),
    {
        let action_time = pokemon.base_action_time();
        BattlePokemon {
            pokemon,
            damage: 0,
            action_time,
            non_volatile_status: None,
            volatile_statuses: Vec::new(),
        }
    }

    /// The entity's typing.
    pub fn types(&self) -> (r: &TypePair)
        ensures
            r == &self.pokemon.species.types,
    {
        &self.pokemon.species.types
    }

    /// Whether the entity owns a type with the same identifier as `typ`.
    pub fn is_type(&self, typ: &Type) -> (r: bool)
        ensures
            r == pair_has_type(self.pokemon.species.types@, typ@.id),
    {
        self.types().contains(typ)
    }

    /// The entity's active statuses: the non-volatile occupant first, then
    /// the volatile entries in insertion order.
    pub fn status_conditions(&self) -> (r: Vec<&AppliedStatus>)
        ensures
            r@.len() == active_statuses(*self).len(),
            forall|i: int| 0 <= i < r@.len() ==> *r@[i] == active_statuses(*self)[i],
    {
        let mut out: Vec<&AppliedStatus> = Vec::new();
        if let Some(st) = &self.non_volatile_status {
            out.push(st);
        }
        let mut i: usize = 0;
        while i < self.volatile_statuses.len()
            invariant
                i <= self.volatile_statuses.len(),
                out@.len() == active_statuses(*self).len() - self.volatile_statuses@.len()
                    + i,
                forall|j: int| 0 <= j < out@.len() ==> *out@[j] == active_statuses(*self)[j],
            decreases self.volatile_statuses.len() - i,
        {
            out.push(&self.volatile_statuses[i]);
            i += 1;
        }
        out
    }

    /// All effects currently in force on the entity, from the non-volatile
    /// status first and then each volatile status in order.
    pub fn status_effects(&self) -> (r: Vec<Effect>)
        ensures
            r@ == active_effects(*self),
    {
        let ghost nonvol_part: Seq<AppliedStatus> = match &self.non_volatile_status {
            Some(st) => seq![*st],
            None => Seq::<AppliedStatus>::empty(),
        };
        let mut out: Vec<Effect> = Vec::new();
        if let Some(st) = &self.non_volatile_status {
            push_all_effects(&mut out, &st.condition.effects);
            proof {
                assert(nonvol_part.skip(1) =~= Seq::<AppliedStatus>::empty());
                assert(effects_of_statuses(Seq::<AppliedStatus>::empty())
                    == Seq::<Effect>::empty());
                assert(effects_of_statuses(nonvol_part) == st.condition.effects@
                    + Seq::<Effect>::empty());
                assert(out@ =~= st.condition.effects@ + Seq::<Effect>::empty());
            }
        }
        proof {
            assert(effects_of_statuses(Seq::<AppliedStatus>::empty()) == Seq::<Effect>::empty());
            assert(out@ =~= effects_of_statuses(nonvol_part));
        }
        let mut i: usize = 0;
        while i < self.volatile_statuses.len()
            invariant
                i <= self.volatile_statuses.len(),
                nonvol_part == (match self.non_volatile_status {
                    Some(st) => seq![st],
                    None => Seq::<AppliedStatus>::empty(),
                }),  
                out@ == effects_of_statuses(nonvol_part + self.volatile_statuses@.take(i as int)),
            decreases self.volatile_statuses.len() - i,
        {
            let st = &self.volatile_statuses[i];
            push_all_effects(&mut out, &st.condition.effects);
            proof {
                lemma_effects_of_snoc(
                    nonvol_part + self.volatile_statuses@.take(i as int),
                    self.volatile_statuses@[i as int],
                );
                assert((nonvol_part + self.volatile_statuses@.take(i as int)).push(
                    self.volatile_statuses@[i as int],
                ) =~= nonvol_part + self.volatile_statuses@.take(i + 1 as int));
            }
            i += 1;
        }
        proof {
            assert(nonvol_part + self.volatile_statuses@.take(self.volatile_statuses@.len() as int)
                =~= active_statuses(*self));
        }
        out
    }

    /// Apply `condition` to the entity for `duration` turns, caused by
    /// `source_move`. An entity owning a type in the condition's immune-type
    /// list is left entirely unchanged; otherwise the applied status takes
    /// the non-volatile slot (replacing any occupant) or is inserted into the
    /// volatile collection, replacing any entry with the same identifier.
    pub fn apply_status(&mut self, condition: StatusCondition, duration: i32, source_move: Move)
        ensures
            condition_blocked(old(self).pokemon.species.types@, condition@) ==> *final(self)
                == *old(self),
            !condition_blocked(old(self).pokemon.species.types@, condition@) ==> {
                &&& final(self).pokemon == old(self).pokemon
                &&& final(self).damage == old(self).damage
                &&& final(self).action_time == old(self).action_time
                &&& (condition.volatility == Volatility::NonVolatile
                    ==> final(self).non_volatile_status == Some(
                    (AppliedStatus { condition, duration, source_move }),
                ) && final(self).volatile_statuses@ == old(self).volatile_statuses@)
                &&& (condition.volatility == Volatility::Volatile
                    ==> final(self).volatile_statuses@ == upsert_status(
                    old(self).volatile_statuses@,
                    (AppliedStatus { condition, duration, source_move }),
                ) && final(self).non_volatile_status == old(self).non_volatile_status)
            },
    {
        let ghost cm = condition@;
        let mut blocked = false;
        let mut i: usize = 0;
        while i < condition.immune_types.len()
            invariant
                i <= condition.immune_types.len(),
                cm == condition@,
                blocked == exists|j: int|
                    0 <= j < i && pair_has_type(
                        self.pokemon.species.types@,
                        #[trigger] cm.immune_types[j].id,
                    ),
                self == old(self),
            decreases condition.immune_types.len() - i,
        {
            if self.is_type(&condition.immune_types[i]) {
                proof {
                    assert(cm.immune_types[i as int].id == condition.immune_types@[i as int]@.id);
                }
                blocked = true;
            }
            i += 1;
        }
        proof {
            assert(blocked == condition_blocked(self.pokemon.species.types@, cm));
        }
        if !blocked {
            let is_volatile = match condition.volatility {
                Volatility::Volatile => true,
                Volatility::NonVolatile => false,
            };
            let applied = AppliedStatus { condition, duration, source_move };
            if !is_volatile {
                self.non_volatile_status = Some(applied);
            } else {
                match find_status_index(&self.volatile_statuses, &applied.condition.id) {
                    Some(at) => {
                        proof {
                            lemma_upsert_at(self.volatile_statuses@, applied, at as int);
                        }
                        self.volatile_statuses.set(at, applied);
                    },
                    None => {
                        proof {
                            lemma_upsert_absent(self.volatile_statuses@, applied);
                        }
                        self.volatile_statuses.push(applied);
                    },
                }
            }
        }
    }

    /// Spend one turn of every active status: each duration is decremented,
    /// and any status whose duration reaches 0 is removed, whether it sits in
    /// the non-volatile slot or in the volatile collection.
    pub fn tick_statuses(&mut self)
        ensures
            final(self).non_volatile_status == tick_nonvolatile(old(self).non_volatile_status),
            final(self).volatile_statuses@ == tick_statuses_seq(old(self).volatile_statuses@),
            final(self).pokemon == old(self).pokemon,
            final(self).damage == old(self).damage,
            final(self).action_time == old(self).action_time,
    {
        let cur = self.non_volatile_status.take();
        match cur {
            Some(st) => {
                if st.duration > 1 {
                    let mut ticked = st;
                    ticked.duration = ticked.duration - 1;
                    self.non_volatile_status = Some(ticked);
                }
            },
            None => {},
        }
        let ghost orig = old(self).volatile_statuses@;
        let mut out: Vec<AppliedStatus> = Vec::new();
        while self.volatile_statuses.len() > 0
            invariant
                tick_statuses_seq(orig) == out@ + tick_statuses_seq(self.volatile_statuses@),
                self.pokemon == old(self).pokemon,
                self.damage == old(self).damage,
                self.action_time == old(self).action_time,
                self.non_volatile_status == tick_nonvolatile(old(self).non_volatile_status),
            decreases self.volatile_statuses.len(),
        {
            let ghost before = self.volatile_statuses@;
            let st = self.volatile_statuses.remove(0);
            proof {
                assert(self.volatile_statuses@ =~= before.skip(1));
            }
            if st.duration > 1 {
                let mut ticked = st;
                ticked.duration = ticked.duration - 1;
                proof {
                    assert(ticked == tick_applied(before[0]));
                }
                out.push(ticked);
                proof {
                    assert(out@ + tick_statuses_seq(self.volatile_statuses@) =~= (out@.drop_last()
                        + (seq![tick_applied(before[0])] + tick_statuses_seq(before.skip(1)))));
                }
            }
        }
        proof {
            assert(out@ + tick_statuses_seq(self.volatile_statuses@) =~= out@);
        }
        self.volatile_statuses = out;
    }
}

/// The hundredths multipliers of every stat-modifying effect of `effs` that
/// targets `stat`, in order.
pub open spec fn modify_stat_multipliers(effs: Seq<Effect>, stat: Stat) -> Seq<int>
    decreases effs.len(),
{
    if effs.len() == 0 {
        Seq::<int>::empty()
    } else {
        let rest = modify_stat_multipliers(effs.skip(1), stat);
        match effs[0] {
            Effect::ModifyStat { stat: s, multiplier } => if s == stat {
                seq![multiplier as int] + rest
            } else {
                rest
            },
            _ => rest,
        }
    }
}

/// The hundredths multipliers that the entity's active effects stack onto
/// `stat`.
pub open spec fn stat_multipliers(bp: BattlePokemon, stat: Stat) -> Seq<int> {
    modify_stat_multipliers(active_effects(bp), stat)
}

/// The entity's effective value of `stat`: the computed stat times the
/// product of every matching stat-modifier (an empty product is the neutral
/// 1), floored once, and clamped to the `i32` range at the machine limit.
pub open spec fn effective_stat_spec(bp: BattlePokemon, stat: Stat) -> int {
    let base = calculate_stat_spec(bp.pokemon@, stat);
    let ms = stat_multipliers(bp, stat);
    let exact = (base * product_of(ms)) / pow100(ms.len());
    if exact > i32::MAX as int {
        i32::MAX as int
    } else {
        exact
    }
}

/// The machine limit under which the effective value of `stat` is computable
/// exactly in 128-bit arithmetic.
pub open spec fn stat_multipliers_fit(bp: BattlePokemon, stat: Stat) -> bool {
    &&& nonzero_product(stat_multipliers(bp, stat)) <= u128::MAX
    &&& calculate_stat_spec(bp.pokemon@, stat) * nonzero_product(stat_multipliers(bp, stat))
        <= u128::MAX
}

/// The machine limit of [`stat_multipliers_fit`], for all six stats at once.
pub open spec fn all_stat_multipliers_fit(bp: BattlePokemon) -> bool {
    forall|s: Stat| #[trigger] stat_multipliers_fit(bp, s)
}

proof fn lemma_modify_stat_multipliers_nonneg(effs: Seq<Effect>, stat: Stat)
    ensures
        forall|j: int|
            0 <= j < modify_stat_multipliers(effs, stat).len() ==> modify_stat_multipliers(
                effs,
                stat,
            )[j] >= 0,
    decreases effs.len(),
{
    if effs.len() > 0 {
        lemma_modify_stat_multipliers_nonneg(effs.skip(1), stat);
        let rest = modify_stat_multipliers(effs.skip(1), stat);
        let whole = modify_stat_multipliers(effs, stat);
        match effs[0] {
            Effect::ModifyStat { stat: s, multiplier } => {
                if s == stat {
                    assert forall|j: int| 0 <= j < whole.len() implies whole[j] >= 0 by {
                        if j == 0 {
                            assert(whole[0] == multiplier as int);
                        } else {
                            assert(whole[j] == rest[j - 1]);
                        }
                    }
                }
            },
            _ => {},
        }
    }
}

/// Extract the hundredths multipliers of the stat-modifying effects that
/// target `stat`.
fn collect_stat_multipliers(effs: &Vec<Effect>, stat: Stat) -> (r: Vec<u32>)
    ensures
        ints_of(r@) == modify_stat_multipliers(effs@, stat),
{
    let mut out: Vec<u32> = Vec::new();
    let mut i: usize = 0;
    proof {
        assert(effs@.skip(0) =~= effs@);
        assert(ints_of(out@) =~= Seq::<int>::empty());
        assert(Seq::<int>::empty() + modify_stat_multipliers(effs@, stat)
            =~= modify_stat_multipliers(effs@, stat));
    }
    while i < effs.len()
        invariant
            i <= effs.len(),
            ints_of(out@) + modify_stat_multipliers(effs@.skip(i as int), stat)
                == modify_stat_multipliers(effs@, stat),
        decreases effs.len() - i,
    {
        proof {
            assert(effs@.skip(i as int)[0] == effs@[i as int]);
            assert(effs@.skip(i as int).skip(1) =~= effs@.skip(i + 1 as int));
        }
        let ghost before = out@;
        match effs[i] {
            Effect::ModifyStat { stat: s, multiplier } => {
                if s == stat {
                    out.push(multiplier);
                    proof {
                        assert(ints_of(out@) =~= ints_of(before).push(multiplier as int));
                        assert(ints_of(before).push(multiplier as int) + modify_stat_multipliers(
                            effs@.skip(i + 1 as int),
                            stat,
                        ) =~= ints_of(before) + (seq![multiplier as int]
                            + modify_stat_multipliers(effs@.skip(i + 1 as int), stat)));
                    }
                }
            },
            _ => {},
        }
        i += 1;
    }
    proof {
        assert(effs@.skip(effs@.len() as int) =~= Seq::<Effect>::empty());
        assert(modify_stat_multipliers(Seq::<Effect>::empty(), stat) == Seq::<int>::empty());
        assert(ints_of(out@) + Seq::<int>::empty() =~= ints_of(out@));
    }
    out
}

impl BattlePokemon {
    /// The stacked multiplier the entity's active effects put on `stat`, as
    /// an exact rational: a numerator and the count of hundredths factors, so
    /// the multiplier's value is `numerator / 100^count`.
    pub fn multiplier_to_stat(&self, st: Stat) -> (r: (u128, usize))
        requires
            nonzero_product(stat_multipliers(*self, st)) <= u128::MAX,
        ensures
            r.0 as int == product_of(stat_multipliers(*self, st)),
            r.1 == stat_multipliers(*self, st).len(),
    {
        let effs = self.status_effects();
        let collected = collect_stat_multipliers(&effs, st);
        let ghost ms = stat_multipliers(*self, st);
        let pr = product_hundredths(&collected);
        proof {
            if pr.2 {
                lemma_product_with_zero(ms);
            } else {
                lemma_product_no_zero(ms);
            }
        }
        if pr.2 {
            (0, pr.1)
        } else {
            (pr.0, pr.1)
        }
    }

    /// The entity's effective value of one stat.
    fn effective_stat(&self, stat: Stat) -> (r: i32)
        requires
            valid_stats_config(self.pokemon@),
            stat_multipliers_fit(*self, stat),
        ensures
            r == effective_stat_spec(*self, stat),
            r >= 0,
    {
        let base = self.pokemon.calculate_stat(stat);
        let pr = self.multiplier_to_stat(stat);
        let ghost ms = stat_multipliers(*self, stat);
        let ghost base_i = calculate_stat_spec(self.pokemon@, stat);
        proof {
            lemma_modify_stat_multipliers_nonneg(active_effects(*self), stat);
            lemma_product_nonneg(ms);
            lemma_nonzero_product_ge_one(ms);
            if has_zero(ms) {
                lemma_product_with_zero(ms);
            } else {
                lemma_product_no_zero(ms);
            }
            assert(base_i * (pr.0 as int) <= base_i * nonzero_product(ms)) by (nonlinear_arith)
                requires
                    0 <= pr.0 as int <= nonzero_product(ms),
                    base_i >= 0,
            ;
        }
        let v: u128 = (base as u128) * pr.0;
        let q = divide_pow100(v, pr.1);
        proof {
            lemma_pow100_pos(ms.len());
        }
        saturate_to_i32(q)
    }

    /// The entity's effective stat vector: each computed stat multiplied by
    /// the product of every matching stat-modifying effect currently in
    /// force, recomputed on demand from the current status state.
    pub fn effective_stats(&self) -> (r: StatBlock)
        requires
            valid_stats_config(self.pokemon@),
            all_stat_multipliers_fit(*self),
        ensures
            r.hp == effective_stat_spec(*self, Stat::Hp),
            r.atk == effective_stat_spec(*self, Stat::Atk),
            r.def == effective_stat_spec(*self, Stat::Def),
            r.spatk == effective_stat_spec(*self, Stat::SpAtk),
            r.spdef == effective_stat_spec(*self, Stat::SpDef),
            r.spe == effective_stat_spec(*self, Stat::Spe),
    {
        proof {
            assert(stat_multipliers_fit(*self, Stat::Hp));
            assert(stat_multipliers_fit(*self, Stat::Atk));
            assert(stat_multipliers_fit(*self, Stat::Def));
            assert(stat_multipliers_fit(*self, Stat::SpAtk));
            assert(stat_multipliers_fit(*self, Stat::SpDef));
            assert(stat_multipliers_fit(*self, Stat::Spe));
        }
        StatBlock {
            hp: self.effective_stat(Stat::Hp),
            atk: self.effective_stat(Stat::Atk),
            def: self.effective_stat(Stat::Def),
            spatk: self.effective_stat(Stat::SpAtk),
            spdef: self.effective_stat(Stat::SpDef),
            spe: self.effective_stat(Stat::Spe),
        }
    }

    /// The entity's current hit points: effective maximum HP minus the
    /// damage accumulated so far.
    pub fn current_hp(&self) -> (r: i32)
        requires
            valid_stats_config(self.pokemon@),
            stat_multipliers_fit(*self, Stat::Hp),
            self.damage >= 0,
        ensures
            r == effective_stat_spec(*self, Stat::Hp) - self.damage,
    {
        self.effective_stat(Stat::Hp) - self.damage
    }

    /// The action-time tier of the entity's effective speed.
    pub fn base_action_time(&self) -> (r: i32)
        requires
            valid_stats_config(self.pokemon@),
            stat_multipliers_fit(*self, Stat::Spe),
        ensures
            r == base_action_time_spec(effective_stat_spec(*self, Stat::Spe)),
    {
        base_action_time(self.effective_stat(Stat::Spe))
    }
}


/// The hundredths multipliers of every damage-multiplier effect of `effs`
/// recorded for `side` whose category is the wildcard or equals the move's,
/// in order.
pub open spec fn damage_multipliers(effs: Seq<Effect>, side: Side, category: Category) -> Seq<int>
    decreases effs.len(),
{
    if effs.len() == 0 {
        Seq::<int>::empty()
    } else {
        let rest = damage_multipliers(effs.skip(1), side, category);
        match effs[0] {
            Effect::DamageMultiplier { side: sd, multiplier, move_category } => if sd == side && (
            move_category == Category::All || move_category == category) {
                seq![multiplier as int] + rest
            } else {
                rest
            },
            _ => rest,
        }
    }
}

/// The damage multipliers a move of `category` is subject to: those the
/// attacker's active effects record for the user side, then those the
/// target's active effects record for the target side.
pub open spec fn battle_multipliers(
    attacker: BattlePokemon,
    target: BattlePokemon,
    category: Category,
) -> Seq<int> {
    damage_multipliers(active_effects(attacker), Side::User, category) + damage_multipliers(
        active_effects(target),
        Side::Target,
        category,
    )
}

/// The stat a move of `category` attacks with.
pub open spec fn attack_stat_for(category: Category) -> Stat {
    if category == Category::Physical {
        Stat::Atk
    } else {
        Stat::SpAtk
    }
}

/// The stat a move of `category` is defended with.
pub open spec fn defense_stat_for(category: Category) -> Stat {
    if category == Category::Physical {
        Stat::Def
    } else {
        Stat::SpDef
    }
}

/// The base damage of an attack with `power`, before any multiplier: integer
/// division at each nested step, so the full product is taken first, then
/// divided by the defense term, then by 5.
pub open spec fn base_damage_spec(
    attacker: BattlePokemon,
    target: BattlePokemon,
    power: int,
    category: Category,
) -> int {
    let atk = effective_stat_spec(attacker, attack_stat_for(category));
    let def = effective_stat_spec(target, defense_stat_for(category));
    (((100 + atk + 15 * (attacker.pokemon.level as int)) * power) / (def + 50)) / 5
}

/// The same-type attack bonus, in hundredths: 125 when the attacker owns the
/// move's type, else the neutral 100.
pub open spec fn stab_hundredths(attacker: BattlePokemon, move_type: TypeModel) -> int {
    if pair_has_type(attacker.pokemon.species.types@, move_type.id) {
        125
    } else {
        100
    }
}

/// The deterministic damage of an attack, before any random roll: the base
/// damage times the product of every applicable damage-multiplier effect,
/// the combined type multiplier, and the same-type bonus, floored once and
/// clamped to the `i32` range at the machine limit.
pub open spec fn no_roll_damage_spec(
    attacker: BattlePokemon,
    target: BattlePokemon,
    base_power: StyleTriad<i32>,
    category: Category,
    move_type: TypeModel,
    style: Style,
) -> int {
    let bd = base_damage_spec(attacker, target, base_power.spec_get(style) as int, category);
    let ms = battle_multipliers(attacker, target, category);
    let t = pair_multiplier_hundredths(target.pokemon.species.types@, move_type.id);
    let stab = stab_hundredths(attacker, move_type);
    let exact = (bd * product_of(ms) * t * stab) / (pow100(ms.len()) * 10000);
    if exact > i32::MAX as int {
        i32::MAX as int
    } else {
        exact
    }
}

/// The machine limits under which the damage of an attack with `power` is
/// computable exactly: the two effective stats fit, the base-damage
/// arithmetic stays within `i32` as the source formula demands, and the
/// multiplier product stays within 128-bit arithmetic even at the largest
/// type multiplier (250) and same-type bonus (125).
pub open spec fn damage_computation_fits(
    attacker: BattlePokemon,
    target: BattlePokemon,
    power: int,
    category: Category,
) -> bool {
    let atk = effective_stat_spec(attacker, attack_stat_for(category));
    let bd = base_damage_spec(attacker, target, power, category);
    let ms = battle_multipliers(attacker, target, category);
    &&& valid_stats_config(attacker.pokemon@)
    &&& valid_stats_config(target.pokemon@)
    &&& stat_multipliers_fit(attacker, attack_stat_for(category))
    &&& stat_multipliers_fit(target, defense_stat_for(category))
    &&& 0 <= power
    &&& 100 + atk + 15 * (attacker.pokemon.level as int) <= i32::MAX
    &&& (100 + atk + 15 * (attacker.pokemon.level as int)) * power <= i32::MAX
    &&& effective_stat_spec(target, defense_stat_for(category)) + 50 <= i32::MAX
    &&& nonzero_product(ms) <= u128::MAX
    &&& bd * nonzero_product(ms) * 250 * 125 <= u128::MAX
}

proof fn lemma_damage_multipliers_nonneg(effs: Seq<Effect>, side: Side, category: Category)
    ensures
        forall|j: int|
            0 <= j < damage_multipliers(effs, side, category).len() ==> damage_multipliers(
                effs,
                side,
                category,
            )[j] >= 0,
    decreases effs.len(),
{
    if effs.len() > 0 {
        lemma_damage_multipliers_nonneg(effs.skip(1), side, category);
        let rest = damage_multipliers(effs.skip(1), side, category);
        let whole = damage_multipliers(effs, side, category);
        match effs[0] {
            Effect::DamageMultiplier { side: sd, multiplier, move_category } => {
                if sd == side && (move_category == Category::All || move_category == category) {
                    assert forall|j: int| 0 <= j < whole.len() implies whole[j] >= 0 by {
                        if j == 0 {
                            assert(whole[0] == multiplier as int);
                        } else {
                            assert(whole[j] == rest[j - 1]);
                        }
                    }
                }
            },
            _ => {},
        }
    }
}

/// Extract the hundredths multipliers of the damage-multiplier effects
/// recorded for `side` that apply to `category`, appending them to `out`.
fn collect_damage_multipliers(out: &mut Vec<u32>, effs: &Vec<Effect>, side: Side, category: Category)
    ensures
        ints_of(final(out)@) == ints_of(old(out)@) + damage_multipliers(effs@, side, category),
{
    let mut i: usize = 0;
    proof {
        assert(effs@.skip(0) =~= effs@);
    }
    while i < effs.len()
        invariant
            i <= effs.len(),
            ints_of(out@) + damage_multipliers(effs@.skip(i as int), side, category) == ints_of(
                old(out)@,
            ) + damage_multipliers(effs@, side, category),
        decreases effs.len() - i,
    {
        proof {
            assert(effs@.skip(i as int)[0] == effs@[i as int]);
            assert(effs@.skip(i as int).skip(1) =~= effs@.skip(i + 1 as int));
        }
        let ghost before = out@;
        match effs[i] {
            Effect::DamageMultiplier { side: sd, multiplier, move_category } => {
                let applies = match (sd, side) {
                    (Side::User, Side::User) => true,
                    (Side::Target, Side::Target) => true,
                    _ => false,
                };
                let category_applies = match move_category {
                    Category::All => true,
                    _ => move_category == category,
                };
                if applies && category_applies {
                    out.push(multiplier);
                    proof {
                        assert(ints_of(out@) =~= ints_of(before).push(multiplier as int));
                        assert(ints_of(before).push(multiplier as int) + damage_multipliers(
                            effs@.skip(i + 1 as int),
                            side,
                            category,
                        ) =~= ints_of(before) + (seq![multiplier as int] + damage_multipliers(
                            effs@.skip(i + 1 as int),
                            side,
                            category,
                        )));
                    }
                }
            },
            _ => {},
        }
        i += 1;
    }
    proof {
        assert(effs@.skip(effs@.len() as int) =~= Seq::<Effect>::empty());
        assert(damage_multipliers(Seq::<Effect>::empty(), side, category) == Seq::<int>::empty());
        assert(ints_of(out@) + Seq::<int>::empty() =~= ints_of(out@));
    }
}

/// The crit-stage deltas of `effs`, summed.
pub open spec fn sum_crit(effs: Seq<Effect>) -> int
    decreases effs.len(),
{
    if effs.len() == 0 {
        0
    } else {
        effect_crit_bonus(effs[0]) + sum_crit(effs.skip(1))
    }
}

/// The total crit stages of an attack: the move's crit stage for the chosen
/// style plus every crit-stage delta among the attacker's active effects.
pub open spec fn crit_stages_spec(
    attacker: BattlePokemon,
    crit_stage: StyleTriad<i32>,
    style: Style,
) -> int {
    crit_stage.spec_get(style) + sum_crit(active_effects(attacker))
}

/// The crit-chance denominator of a crit-stage total: a crit lands on a
/// 1-in-denominator draw, down to 1-in-1 at three stages or more.
pub open spec fn crit_denominator(stages: int) -> int {
    if stages <= 0 {
        24
    } else if stages == 1 {
        8
    } else if stages == 2 {
        2
    } else {
        1
    }
}

/// The damage of an attack given both random draws: the no-roll damage is
/// scaled by the variance percentage with integer division, and a critical
/// hit (a draw of 0) multiplies by one and a half, floored and clamped to
/// the `i32` range.
pub open spec fn roll_damage_spec(
    attacker: BattlePokemon,
    target: BattlePokemon,
    mv: MoveModel,
    style: Style,
    crit_draw: int,
    variance: int,
) -> int {
    let nr = no_roll_damage_spec(attacker, target, mv.power, mv.category, mv.move_type, style);
    let d1 = (nr * variance) / 100;
    if crit_draw == 0 {
        let boosted = (3 * d1) / 2;
        if boosted > i32::MAX as int {
            i32::MAX as int
        } else {
            boosted
        }
    } else {
        d1
    }
}

/// The no-roll damage is never negative.
pub proof fn lemma_no_roll_damage_nonneg(
    attacker: BattlePokemon,
    target: BattlePokemon,
    base_power: StyleTriad<i32>,
    category: Category,
    move_type: TypeModel,
    style: Style,
)
    requires
        damage_computation_fits(attacker, target, base_power.spec_get(style) as int, category),
    ensures
        0 <= no_roll_damage_spec(attacker, target, base_power, category, move_type, style)
            <= i32::MAX,
{
    let power = base_power.spec_get(style) as int;
    let atk = effective_stat_spec(attacker, attack_stat_for(category));
    let def = effective_stat_spec(target, defense_stat_for(category));
    lemma_effective_stat_nonneg(attacker, attack_stat_for(category));
    lemma_effective_stat_nonneg(target, defense_stat_for(category));
    let top = (100 + atk + 15 * (attacker.pokemon.level as int)) * power;
    assert((100 + atk + 15 * (attacker.pokemon.level as int)) * power >= 0) by (nonlinear_arith)
        requires
            atk >= 0,
            attacker.pokemon.level as int >= 0,
            power >= 0,
    ;
    vstd::arithmetic::div_mod::lemma_div_pos_is_pos(top, def + 50);
    vstd::arithmetic::div_mod::lemma_div_pos_is_pos(top / (def + 50), 5);
    let bd = base_damage_spec(attacker, target, power, category);
    let ms = battle_multipliers(attacker, target, category);
    let t = pair_multiplier_hundredths(target.pokemon.species.types@, move_type.id);
    let stab = stab_hundredths(attacker, move_type);
    lemma_damage_multipliers_nonneg(active_effects(attacker), Side::User, category);
    lemma_damage_multipliers_nonneg(active_effects(target), Side::Target, category);
    assert(forall|j: int| 0 <= j < ms.len() ==> ms[j] >= 0) by {
        let mu = damage_multipliers(active_effects(attacker), Side::User, category);
        let mt = damage_multipliers(active_effects(target), Side::Target, category);
        assert(forall|j: int| 0 <= j < ms.len() ==> ms[j] == (if j < mu.len() {
            mu[j]
        } else {
            mt[j - mu.len()]
        }));
    }
    lemma_product_nonneg(ms);
    assert(t >= 0);
    assert(bd * product_of(ms) * t * stab >= 0) by (nonlinear_arith)
        requires
            bd >= 0,
            product_of(ms) >= 0,
            t >= 0,
            stab >= 0,
    ;
    lemma_pow100_pos(ms.len());
    assert(pow100(ms.len()) * 10000 > 0) by (nonlinear_arith)
        requires
            pow100(ms.len()) > 0,
    ;
    vstd::arithmetic::div_mod::lemma_div_pos_is_pos(
        bd * product_of(ms) * t * stab,
        pow100(ms.len()) * 10000,
    );
}

/// The effective value of a stat is never negative.
pub proof fn lemma_effective_stat_nonneg(bp: BattlePokemon, stat: Stat)
    requires
        valid_stats_config(bp.pokemon@),
    ensures
        0 <= effective_stat_spec(bp, stat) <= i32::MAX,
{
    let base = calculate_stat_spec(bp.pokemon@, stat);
    let ms = stat_multipliers(bp, stat);
    lemma_calculate_stat_bounds(bp.pokemon@, stat);
    lemma_modify_stat_multipliers_nonneg(active_effects(bp), stat);
    lemma_product_nonneg(ms);
    assert(base * product_of(ms) >= 0) by (nonlinear_arith)
        requires
            base >= 0,
            product_of(ms) >= 0,
    ;
    lemma_pow100_pos(ms.len());
    vstd::arithmetic::div_mod::lemma_div_pos_is_pos(base * product_of(ms), pow100(ms.len()));
}

impl BattlePokemon {
    /// The deterministic damage of an attack of `attacker` on `target` with
    /// the given power triad, category, move type and style, before any
    /// random roll. The result is a pure function of the arguments, so equal
    /// inputs always give the same damage.
    pub fn calculate_damage_no_roll(
        attacker: &BattlePokemon,
        target: &BattlePokemon,
        base_power: &StyleTriad<i32>,
        category: Category,
        move_type: &Type,
        style: Style,
    ) -> (dmg: i32)
        requires
            damage_computation_fits(
                *attacker,
                *target,
                base_power.spec_get(style) as int,
                category,
            ),
        ensures
            dmg == no_roll_damage_spec(
                *attacker,
                *target,
                *base_power,
                category,
                move_type@,
                style,
            ),
            0 <= dmg,
    {
        let ghost power_i = base_power.spec_get(style) as int;
        let is_physical = match category {
            Category::Physical => true,
            _ => false,
        };
        let attack_stat = attacker.effective_stat(
            if is_physical {
                Stat::Atk
            } else {
                Stat::SpAtk
            },
        );
        let defense_stat = target.effective_stat(
            if is_physical {
                Stat::Def
            } else {
                Stat::SpDef
            },
        );
        let power = base_power.get(style);
        proof {
            lemma_effective_stat_nonneg(*target, defense_stat_for(category));
            lemma_effective_stat_nonneg(*attacker, attack_stat_for(category));
        }
        let top = (100 + attack_stat + 15 * (attacker.pokemon.level as i32)) * power;
        proof {
            vstd::arithmetic::div_mod::lemma_div_pos_is_pos(top as int, defense_stat as int + 50);
            vstd::arithmetic::div_mod::lemma_div_basics_5(top as int, defense_stat as int + 50);
            vstd::arithmetic::div_mod::lemma_div_pos_is_pos(
                top as int / (defense_stat as int + 50),
                5,
            );
            vstd::arithmetic::div_mod::lemma_div_basics_5(
                top as int / (defense_stat as int + 50),
                5,
            );
        }
        let base_damage = top / (defense_stat + 50) / 5;
        let ghost bd = base_damage_spec(*attacker, *target, power_i, category);
        let ghost ms = battle_multipliers(*attacker, *target, category);
        let user_effs = attacker.status_effects();
        let target_effs = target.status_effects();
        let mut collected: Vec<u32> = Vec::new();
        collect_damage_multipliers(&mut collected, &user_effs, Side::User, category);
        collect_damage_multipliers(&mut collected, &target_effs, Side::Target, category);
        proof {
            assert(ints_of(Seq::<u32>::empty()) =~= Seq::<int>::empty());
            assert(Seq::<int>::empty() + damage_multipliers(
                user_effs@,
                Side::User,
                category,
            ) =~= damage_multipliers(user_effs@, Side::User, category));
            assert(ints_of(collected@) == ms);
        }
        let pr = product_hundredths(&collected);
        let t = target.types().damage_multiplier_from(move_type);
        let stab: u32 = if attacker.is_type(move_type) {
            125
        } else {
            100
        };
        let ghost t_i = pair_multiplier_hundredths(target.pokemon.species.types@, move_type@.id);
        let ghost stab_i = stab_hundredths(*attacker, move_type@);
        proof {
            lemma_damage_multipliers_nonneg(active_effects(*attacker), Side::User, category);
            lemma_damage_multipliers_nonneg(active_effects(*target), Side::Target, category);
            assert(forall|j: int| 0 <= j < ms.len() ==> ms[j] >= 0) by {
                let mu = damage_multipliers(active_effects(*attacker), Side::User, category);
                let mt = damage_multipliers(active_effects(*target), Side::Target, category);
                assert(forall|j: int| 0 <= j < ms.len() ==> ms[j] == (if j < mu.len() {
                    mu[j]
                } else {
                    mt[j - mu.len()]
                }));
            }
            lemma_nonzero_product_ge_one(ms);
            if has_zero(ms) {
                lemma_product_with_zero(ms);
            } else {
                lemma_product_no_zero(ms);
            }
        }
        let num: u128 = if pr.2 || t == 0 {
            proof {
                if t == 0 && !pr.2 {
                    assert(bd * product_of(ms) * t_i * stab_i == 0) by (nonlinear_arith)
                        requires
                            t_i == 0,
                    ;
                } else {
                    assert(bd * product_of(ms) * t_i * stab_i == 0) by (nonlinear_arith)
                        requires
                            product_of(ms) == 0,
                    ;
                }
            }
            0
        } else {
            proof {
                assert(t_i <= 250 && 1 <= stab_i <= 125);
                assert(bd * (pr.0 as int) * t_i * stab_i <= bd * nonzero_product(ms) * 250 * 125
                    && bd * (pr.0 as int) <= u128::MAX && bd * (pr.0 as int) * t_i <= u128::MAX)
                    by (nonlinear_arith)
                    requires
                        0 <= bd,
                        0 <= pr.0 as int,
                        pr.0 as int == nonzero_product(ms),
                        1 <= t_i <= 250,
                        1 <= stab_i <= 125,
                        bd * nonzero_product(ms) * 250 * 125 <= u128::MAX,
                ;
            }
            (base_damage as u128) * pr.0 * (t as u128) * (stab as u128)
        };
        proof {
            assert(num as int == bd * product_of(ms) * t_i * stab_i);
            assert(pow100(2) == 10000) by {
                assert(pow100(2) == 100 * pow100(1));
                assert(pow100(1) == 100 * pow100(0));
                assert(100 * (100 * 1) == 10000) by (nonlinear_arith);
            }
            lemma_pow100_pos(ms.len());
            vstd::arithmetic::div_mod::lemma_div_denominator(
                num as int,
                pow100(ms.len()),
                10000,
            );
        }
        let q1 = divide_pow100(num, pr.1);
        let q = divide_pow100(q1, 2);
        saturate_to_i32(q)
    }

    /// The damage of an attack given both random draws explicitly: the
    /// crit draw (a draw of 0 is a critical hit) and the variance percentage
    /// in 85..=99. Passing the draws in keeps the formula deterministic and
    /// replayable.
    pub fn calculate_damage_with_rolls(
        attacker: &BattlePokemon,
        target: &BattlePokemon,
        mv: &Move,
        style: Style,
        crit_draw: i32,
        variance: i32,
    ) -> (dmg: i32)
        requires
            damage_computation_fits(
                *attacker,
                *target,
                mv.power.spec_get(style) as int,
                mv.category,
            ),
            85 <= variance < 100,
            0 <= crit_draw,
            no_roll_damage_spec(
                *attacker,
                *target,
                mv.power,
                mv.category,
                mv.move_type@,
                style,
            ) * variance <= i32::MAX,
        ensures
            dmg == roll_damage_spec(
                *attacker,
                *target,
                mv@,
                style,
                crit_draw as int,
                variance as int,
            ),
    {
        let no_roll = Self::calculate_damage_no_roll(
            attacker,
            target,
            &mv.power,
            mv.category,
            &mv.move_type,
            style,
        );
        proof {
            assert(no_roll * variance >= 0) by (nonlinear_arith)
                requires
                    no_roll >= 0,
                    variance >= 0,
            ;
            vstd::arithmetic::div_mod::lemma_div_pos_is_pos((no_roll * variance) as int, 100);
            vstd::arithmetic::div_mod::lemma_div_basics_5((no_roll * variance) as int, 100);
        }
        let d1 = no_roll * variance / 100;
        if crit_draw == 0 {
            proof {
                vstd::arithmetic::div_mod::lemma_div_pos_is_pos(3 * d1 as int, 2);
            }
            let boosted: i64 = 3 * (d1 as i64) / 2;
            if boosted > (i32::MAX as i64) {
                i32::MAX
            } else {
                boosted as i32
            }
        } else {
            d1
        }
    }

    /// The damage of one attack resolution, rolling the critical-hit draw
    /// and the variance draw from the process random source: the result is
    /// the rolled-damage formula applied to some crit draw within the
    /// crit-chance denominator and some variance within 85..=99.
    pub fn calculate_damage(
        attacker: &BattlePokemon,
        target: &BattlePokemon,
        mv: &Move,
        style: Style,
    ) -> (dmg: i32)
        requires
            damage_computation_fits(
                *attacker,
                *target,
                mv.power.spec_get(style) as int,
                mv.category,
            ),
            no_roll_damage_spec(
                *attacker,
                *target,
                mv.power,
                mv.category,
                mv.move_type@,
                style,
            ) * 99 <= i32::MAX,
        ensures
            exists|c: int, v: int|
                0 <= c < crit_denominator(crit_stages_spec(*attacker, mv@.crit_stage, style))
                    && 85 <= v < 100 && dmg == roll_damage_spec(
                    *attacker,
                    *target,
                    mv@,
                    style,
                    c,
                    v,
                ),
    {
        let effs = attacker.status_effects();
        let mut stage_sum: i128 = 0;
        let mut i: usize = 0;
        proof {
            assert(effs@.skip(0) =~= effs@);
        }
        while i < effs.len()
            invariant
                i <= effs.len(),
                effs@ == active_effects(*attacker),
                stage_sum + sum_crit(effs@.skip(i as int)) == sum_crit(effs@),
                -(i as int) * 0x8000_0000 <= stage_sum <= (i as int) * 0x8000_0000,
            decreases effs.len() - i,
        {
            proof {
                assert(effs@.skip(i as int)[0] == effs@[i as int]);
                assert(effs@.skip(i as int).skip(1) =~= effs@.skip(i + 1 as int));
            }
            let b = effs[i].crit_bonus();
            stage_sum = stage_sum + (b as i128);
            i += 1;
        }
        proof {
            assert(effs@.skip(effs@.len() as int) =~= Seq::<Effect>::empty());
            assert(sum_crit(Seq::<Effect>::empty()) == 0);
        }
        let triad_stage = mv.crit_stage.get(style);
        let total: i128 = (triad_stage as i128) + stage_sum;
        let ghost stages = crit_stages_spec(*attacker, mv.crit_stage, style);
        proof {
            assert(total == stages);
        }
        let crit_chance: i32 = if total <= 0 {
            24
        } else if total == 1 {
            8
        } else if total == 2 {
            2
        } else {
            1
        };
        let crit_draw = draw_in(0, crit_chance);
        let variance = draw_in(85, 100);
        proof {
            lemma_no_roll_damage_nonneg(
                *attacker,
                *target,
                mv.power,
                mv.category,
                mv.move_type@,
                style,
            );
            let nr = no_roll_damage_spec(
                *attacker,
                *target,
                mv.power,
                mv.category,
                mv.move_type@,
                style,
            );
            assert(nr * variance <= nr * 99) by (nonlinear_arith)
                requires
                    nr >= 0,
                    variance < 100,
            ;
        }
        let dmg = Self::calculate_damage_with_rolls(
            attacker,
            target,
            mv,
            style,
            crit_draw,
            variance,
        );
        proof {
            assert(0 <= crit_draw as int && (crit_draw as int) < crit_denominator(stages));
            assert(85 <= variance as int && (variance as int) < 100);
            assert(dmg == roll_damage_spec(
                *attacker,
                *target,
                mv@,
                style,
                crit_draw as int,
                variance as int,
            ));
        }
        dmg
    }
}

/// Equal inputs always give equal no-roll damage: the formula is a pure
/// function of the two entities, the power triad, the category, the move
/// type and the style, with no hidden state.
pub proof fn lemma_no_roll_damage_deterministic(
    attacker1: BattlePokemon,
    target1: BattlePokemon,
    base_power1: StyleTriad<i32>,
    category1: Category,
    move_type1: TypeModel,
    style1: Style,
    attacker2: BattlePokemon,
    target2: BattlePokemon,
    base_power2: StyleTriad<i32>,
    category2: Category,
    move_type2: TypeModel,
    style2: Style,
)
    requires
        attacker1 == attacker2,
        target1 == target2,
        base_power1 == base_power2,
        category1 == category2,
        move_type1 == move_type2,
        style1 == style2,
    ensures
        no_roll_damage_spec(attacker1, target1, base_power1, category1, move_type1, style1)
            == no_roll_damage_spec(attacker2, target2, base_power2, category2, move_type2, style2),
{
}


} // verus!
