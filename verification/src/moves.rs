//! Move definitions: damage categories, the three execution styles, the
//! per-style value triads, and the conditional effects a move can apply.

use vstd::prelude::*;

use crate::bytes::copy_byte_list;
use crate::bytes::copy_bytes;
use crate::bytes::views_of;
use crate::pokemon::Side;
use crate::types::Type;
use crate::types::TypeModel;

verus! {

/// A move's damage category. `All` never categorises a move itself; it is the
/// wildcard a status effect uses to apply to every category.
#[derive(Debug, Clone, Copy, PartialEq, Eq, Structural)]
pub enum Category {
    Physical,
    Special,
    Status,
    All,
}

impl Category {
    /// Whether a move of this category deals direct damage.
    pub fn is_damaging(&self) -> (r: bool)
        ensures
            r == (*self == Category::Physical || *self == Category::Special),
    {
        match self {
            Category::Physical | Category::Special => true,
            _ => false,
        }
    }
}

/// One of the three move-execution variants.
#[derive(Debug, Clone, Copy, PartialEq, Eq, Structural)]
pub enum Style {
    Regular,
    Agile,
    Strong,
}

/// Three parallel values, one per style.
#[derive(Debug, Clone, Copy, PartialEq, Eq, Structural)]
pub struct StyleTriad<T: Copy> {
    pub regular: T,
    pub agile: T,
    pub strong: T,
}

impl<T: Copy> StyleTriad<T> {
    /// The entry that `style` selects.
    pub open spec fn spec_get(self, style: Style) -> T {
        match style {
            Style::Regular => self.regular,
            Style::Agile => self.agile,
            Style::Strong => self.strong,
        }
    }

    /// The entry that `style` selects.
    pub fn get(&self, style: Style) -> (r: T)
        ensures
            r == self.spec_get(style),
    {
        match style {
            Style::Regular => self.regular,
            Style::Agile => self.agile,
            Style::Strong => self.strong,
        }
    }

    /// The triad with the three given entries.
    pub fn new(regular: T, agile: T, strong: T) -> (r: Self)
        ensures
            r.regular == regular,
            r.agile == agile,
            r.strong == strong,
    {
        StyleTriad { regular, agile, strong }
    }

    /// The triad holding `val` for every style.
    pub fn all(val: T) -> (r: Self)
        ensures
            r.regular == val,
            r.agile == val,
            r.strong == val,
    {
        StyleTriad { regular: val, agile: val, strong: val }
    }
}

/// The quantity a heal or recoil percentage is taken of.
#[derive(Debug, Clone, Copy, PartialEq, Eq, Structural)]
pub enum DamageOrMaxHp {
    DamageDealt,
    MaxHp,
}

/// An optional predicate on the state of the user and/or the target that
/// gates a move effect; an absent requirement is unconditional.
pub struct PokemonConditionData {
    pub species_id: Option<Vec<u8>>,
    pub status_ids: Option<Vec<Vec<u8>>>,
}

/// The mathematical model of a [`PokemonConditionData`].
#[verifier::ext_equal]
pub struct PokemonConditionDataModel {
    pub species_id: Option<Seq<u8>>,
    pub status_ids: Option<Seq<Seq<u8>>>,
}

impl View for PokemonConditionData {
    type V = PokemonConditionDataModel;

    open spec fn view(&self) -> PokemonConditionDataModel {
        PokemonConditionDataModel {
            species_id: match self.species_id {
                Some(ref v) => Some(v@),
                None => None,
            },
            status_ids: match self.status_ids {
                Some(ref v) => Some(views_of(v@)),
                None => None,
            },
        }
    }
}

impl PokemonConditionData {
    /// A fresh copy of this requirement.
    pub fn duplicate(&self) -> (r: Self)
        ensures
            r@ == self@,
    {
        PokemonConditionData {
            species_id: match &self.species_id {
                Some(v) => Some(copy_bytes(v)),
                None => None,
            },
            status_ids: match &self.status_ids {
                Some(v) => Some(copy_byte_list(v)),
                None => None,
            },
        }
    }
}

/// The optional per-side requirements gating a move effect.
pub struct MoveEffectCondition {
    pub user: Option<PokemonConditionData>,
    pub target: Option<PokemonConditionData>,
}

/// The mathematical model of a [`MoveEffectCondition`].
#[verifier::ext_equal]
pub struct MoveEffectConditionModel {
    pub user: Option<PokemonConditionDataModel>,
    pub target: Option<PokemonConditionDataModel>,
}

impl View for MoveEffectCondition {
    type V = MoveEffectConditionModel;

    open spec fn view(&self) -> MoveEffectConditionModel {
        MoveEffectConditionModel {
            user: match self.user {
                Some(ref c) => Some(c@),
                None => None,
            },
            target: match self.target {
                Some(ref c) => Some(c@),
                None => None,
            },
        }
    }
}

impl Default for MoveEffectCondition {
    /// The unconditional requirement.
    fn default() -> (r: Self)
        ensures
            r.user is None,
            r.target is None,
    {
        MoveEffectCondition { user: None, target: None }
    }
}

impl MoveEffectCondition {
    /// Whether neither side carries a requirement.
    pub fn both_are_none(&self) -> (r: bool)
        ensures
            r == (self.user is None && self.target is None),
    {
        self.user.is_none() && self.target.is_none()
    }

    /// A fresh copy of this requirement pair.
    pub fn duplicate(&self) -> (r: Self)
        ensures
            r@ == self@,
    {
        MoveEffectCondition {
            user: match &self.user {
                Some(c) => Some(c.duplicate()),
                None => None,
            },
            target: match &self.target {
                Some(c) => Some(c.duplicate()),
                None => None,
            },
        }
    }
}

/// One conditional effect a move applies on use. Percentages and durations
/// come as style triads; each variant's optional condition gates it.
pub enum MoveEffect {
    Heal {
        percent_of: DamageOrMaxHp,
        percent: StyleTriad<i32>,
        condition: MoveEffectCondition,
    },
    Recoil {
        percent_of: DamageOrMaxHp,
        percent: StyleTriad<i32>,
        condition: MoveEffectCondition,
    },
    ApplyStatus {
        to: Side,
        status_option_ids: Vec<Vec<u8>>,
        duration: StyleTriad<i32>,
        chance: StyleTriad<i32>,
        condition: MoveEffectCondition,
    },
    CureStatus {
        of: Side,
        status_ids: Vec<Vec<u8>>,
        condition: MoveEffectCondition,
    },
    MultiplyPower {
        multiplier: i32,
        condition: MoveEffectCondition,
    },
    ModifyData {
        power: Option<StyleTriad<i32>>,
        accuracy: Option<StyleTriad<i32>>,
        user_action_time: Option<StyleTriad<i32>>,
        target_action_time: Option<StyleTriad<i32>>,
        crit_stage: Option<StyleTriad<i32>>,
        condition: MoveEffectCondition,
    },
    SwapOffenseAndDefense {
        of: Side,
        condition: MoveEffectCondition,
    },
}

/// The mathematical model of a [`MoveEffect`].
#[verifier::ext_equal]
pub enum MoveEffectModel {
    Heal {
        percent_of: DamageOrMaxHp,
        percent: StyleTriad<i32>,
        condition: MoveEffectConditionModel,
    },
    Recoil {
        percent_of: DamageOrMaxHp,
        percent: StyleTriad<i32>,
        condition: MoveEffectConditionModel,
    },
    ApplyStatus {
        to: Side,
        status_option_ids: Seq<Seq<u8>>,
        duration: StyleTriad<i32>,
        chance: StyleTriad<i32>,
        condition: MoveEffectConditionModel,
    },
    CureStatus {
        of: Side,
        status_ids: Seq<Seq<u8>>,
        condition: MoveEffectConditionModel,
    },
    MultiplyPower {
        multiplier: i32,
        condition: MoveEffectConditionModel,
    },
    ModifyData {
        power: Option<StyleTriad<i32>>,
        accuracy: Option<StyleTriad<i32>>,
        user_action_time: Option<StyleTriad<i32>>,
        target_action_time: Option<StyleTriad<i32>>,
        crit_stage: Option<StyleTriad<i32>>,
        condition: MoveEffectConditionModel,
    },
    SwapOffenseAndDefense {
        of: Side,
        condition: MoveEffectConditionModel,
    },
}

impl View for MoveEffect {
    type V = MoveEffectModel;

    open spec fn view(&self) -> MoveEffectModel {
        match self {
            MoveEffect::Heal { percent_of, percent, condition } => MoveEffectModel::Heal {
                percent_of: *percent_of,
                percent: *percent,
                condition: condition@,
            },
            MoveEffect::Recoil { percent_of, percent, condition } => MoveEffectModel::Recoil {
                percent_of: *percent_of,
                percent: *percent,
                condition: condition@,
            },
            MoveEffect::ApplyStatus {
                to,
                status_option_ids,
                duration,
                chance,
                condition,
            } => MoveEffectModel::ApplyStatus {
                to: *to,
                status_option_ids: views_of(status_option_ids@),
                duration: *duration,
                chance: *chance,
                condition: condition@,
            },
            MoveEffect::CureStatus { of, status_ids, condition } => MoveEffectModel::CureStatus {
                of: *of,
                status_ids: views_of(status_ids@),
                condition: condition@,
            },
            MoveEffect::MultiplyPower { multiplier, condition } => MoveEffectModel::MultiplyPower {
                multiplier: *multiplier,
                condition: condition@,
            },
            MoveEffect::ModifyData {
                power,
                accuracy,
                user_action_time,
                target_action_time,
                crit_stage,
                condition,
            } => MoveEffectModel::ModifyData {
                power: *power,
                accuracy: *accuracy,
                user_action_time: *user_action_time,
                target_action_time: *target_action_time,
                crit_stage: *crit_stage,
                condition: condition@,
            },
            MoveEffect::SwapOffenseAndDefense {
                of,
                condition,
            } => MoveEffectModel::SwapOffenseAndDefense { of: *of, condition: condition@ },
        }
    }
}

impl MoveEffect {
    /// A fresh copy of this effect.
    pub fn duplicate(&self) -> (r: Self)
        ensures
            r@ == self@,
    {
        match self {
            MoveEffect::Heal { percent_of, percent, condition } => MoveEffect::Heal {
                percent_of: *percent_of,
                percent: *percent,
                condition: condition.duplicate(),
            },
            MoveEffect::Recoil { percent_of, percent, condition } => MoveEffect::Recoil {
                percent_of: *percent_of,
                percent: *percent,
                condition: condition.duplicate(),
            },
            MoveEffect::ApplyStatus {
                to,
                status_option_ids,
                duration,
                chance,
                condition,
            } => MoveEffect::ApplyStatus {
                to: *to,
                status_option_ids: copy_byte_list(status_option_ids),
                duration: *duration,
                chance: *chance,
                condition: condition.duplicate(),
            },
            MoveEffect::CureStatus { of, status_ids, condition } => MoveEffect::CureStatus {
                of: *of,
                status_ids: copy_byte_list(status_ids),
                condition: condition.duplicate(),
            },
            MoveEffect::MultiplyPower { multiplier, condition } => MoveEffect::MultiplyPower {
                multiplier: *multiplier,
                condition: condition.duplicate(),
            },
            MoveEffect::ModifyData {
                power,
                accuracy,
                user_action_time,
                target_action_time,
                crit_stage,
                condition,
            } => MoveEffect::ModifyData {
                power: *power,
                accuracy: *accuracy,
                user_action_time: *user_action_time,
                target_action_time: *target_action_time,
                crit_stage: *crit_stage,
                condition: condition.duplicate(),
            },
            MoveEffect::SwapOffenseAndDefense { of, condition } => {
                MoveEffect::SwapOffenseAndDefense { of: *of, condition: condition.duplicate() }
            },
        }
    }
}

/// A move: its identifier, owning type, category, power points, the five
/// style triads, and the ordered effects it applies on use.
pub struct Move {
    pub id: Vec<u8>,
    pub move_type: Type,
    pub category: Category,
    pub pp: u32,
    pub power: StyleTriad<i32>,
    pub accuracy: StyleTriad<i32>,
    pub user_action_time: StyleTriad<i32>,
    pub target_action_time: StyleTriad<i32>,
    pub crit_stage: StyleTriad<i32>,
    pub effects: Vec<MoveEffect>,
}

/// The mathematical model of a [`Move`].
#[verifier::ext_equal]
pub struct MoveModel {
    pub id: Seq<u8>,
    pub move_type: TypeModel,
    pub category: Category,
    pub pp: u32,
    pub power: StyleTriad<i32>,
    pub accuracy: StyleTriad<i32>,
    pub user_action_time: StyleTriad<i32>,
    pub target_action_time: StyleTriad<i32>,
    pub crit_stage: StyleTriad<i32>,
    pub effects: Seq<MoveEffectModel>,
}

impl View for Move {
    type V = MoveModel;

    open spec fn view(&self) -> MoveModel {
        MoveModel {
            id: self.id@,
            move_type: self.move_type@,
            category: self.category,
            pp: self.pp,
            power: self.power,
            accuracy: self.accuracy,
            user_action_time: self.user_action_time,
            target_action_time: self.target_action_time,
            crit_stage: self.crit_stage,
            effects: self.effects@.map_values(|e: MoveEffect| e@),
        }
    }
}

impl Move {
    /// A fresh copy of this move record.
    pub fn duplicate(&self) -> (r: Self)
        ensures
            r@ == self@,
    {
        let mut effects: Vec<MoveEffect> = Vec::new();
        let mut i: usize = 0;
        while i < self.effects.len()
            invariant
                i <= self.effects.len(),
                effects.len() == i,
                forall|j: int| 0 <= j < i ==> effects@[j]@ == self.effects@[j]@,
            decreases self.effects.len() - i,
        {
            effects.push(self.effects[i].duplicate());
            i += 1;
        }
        let r = Move {
            id: copy_bytes(&self.id),
            move_type: self.move_type.duplicate(),
            category: self.category,
            pp: self.pp,
            power: self.power,
            accuracy: self.accuracy,
            user_action_time: self.user_action_time,
            target_action_time: self.target_action_time,
            crit_stage: self.crit_stage,
            effects,
        };
        proof {
            assert(r@.effects =~= self@.effects);
            assert(r@ =~= self@);
        }
        r
    }
}

} // verus!
