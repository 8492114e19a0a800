//! Status conditions: their persistent effects and volatility, and the
//! runtime record of a status applied to a battle entity.
//!
//! Every effect multiplier is an exact rational expressed in hundredths, so
//! halving is 50 and the neutral multiplier is 100.

use vstd::prelude::*;

use crate::bytes::copy_bytes;
use crate::moves::Category;
use crate::moves::Move;
use crate::moves::MoveModel;
use crate::pokemon::Side;
use crate::stats::Stat;
use crate::types::Type;
use crate::types::TypeModel;

verus! {

/// Whether a status occupies the single non-volatile slot or the multi-entry
/// volatile collection of a battle entity.
#[derive(Debug, Clone, Copy, PartialEq, Eq, Structural)]
pub enum Volatility {
    Volatile,
    NonVolatile,
}

/// One persistent effect that is in force while its status is applied.
/// Multipliers are in hundredths.
#[derive(Debug, Clone, Copy)]
pub enum Effect {
    ModifyStat { stat: Stat, multiplier: u32 },
    DamageMultiplier { side: Side, multiplier: u32, move_category: Category },
    CancelTurn { chance: i32 },
    TurnEndDamageFraction { fraction_denominator: i32 },
    TurnEndDamageMove { base_power: i32 },
    EvasionModifier { multiplier: u32 },
    ModifyCritChance { stages: i32 },
    SwapStats { stats: (Stat, Stat) },
}

/// The damage multiplier, in hundredths, that `e` contributes to a move of
/// `category` on behalf of `side`: its own multiplier when `e` is a damage
/// multiplier recorded for that side whose category is the wildcard or equals
/// the move's, and the neutral 100 otherwise.
pub open spec fn effect_damage_multiplier(e: Effect, category: Category, side: Side) -> int {
    match e {
        Effect::DamageMultiplier { side: sd, multiplier, move_category } => {
            if sd == side && (move_category == Category::All || move_category == category) {
                multiplier as int
            } else {
                100
            }
        },
        _ => 100,
    }
}

/// The crit-stage delta `e` contributes: its stage count when it modifies
/// crit chance, and 0 otherwise.
pub open spec fn effect_crit_bonus(e: Effect) -> int {
    match e {
        Effect::ModifyCritChance { stages } => stages as int,
        _ => 0,
    }
}

impl Effect {
    /// The damage multiplier, in hundredths, that this effect contributes to
    /// a move of `category` on behalf of `side`.
    pub fn damge_multiplier(&self, category: Category, side: Side) -> (r: u32)
        ensures
            r == effect_damage_multiplier(*self, category, side),
    {
        if let Effect::DamageMultiplier { side: sd, multiplier, move_category } = self {
            if *sd == side && (*move_category == Category::All || *move_category == category) {
                *multiplier
            } else {
                100
            }
        } else {
            100
        }
    }

    /// The crit-stage delta this effect contributes.
    pub fn crit_bonus(&self) -> (r: i32)
        ensures
            r == effect_crit_bonus(*self),
    {
        if let Effect::ModifyCritChance { stages } = self {
            *stages
        } else {
            0
        }
    }
}

/// A status condition: its identifier, volatility, the types that cannot
/// receive it, and the effects in force for its whole duration.
pub struct StatusCondition {
    pub id: Vec<u8>,
    pub volatility: Volatility,
    pub immune_types: Vec<Type>,
    pub effects: Vec<Effect>,
}

/// The mathematical model of a [`StatusCondition`].
#[verifier::ext_equal]
pub struct StatusConditionModel {
    pub id: Seq<u8>,
    pub volatility: Volatility,
    pub immune_types: Seq<TypeModel>,
    pub effects: Seq<Effect>,
}

impl View for StatusCondition {
    type V = StatusConditionModel;

    open spec fn view(&self) -> StatusConditionModel {
        StatusConditionModel {
            id: self.id@,
            volatility: self.volatility,
            immune_types: self.immune_types@.map_values(|t: Type| t@),
            effects: self.effects@,
        }
    }
}

impl StatusCondition {
    /// A fresh copy of this status record.
    pub fn duplicate(&self) -> (r: Self)
        ensures
            r@ == self@,
    {
        let mut immune_types: Vec<Type> = Vec::new();
        let mut i: usize = 0;
        while i < self.immune_types.len()
            invariant
                i <= self.immune_types.len(),
                immune_types.len() == i,
                forall|j: int| 0 <= j < i ==> immune_types@[j]@ == self.immune_types@[j]@,
            decreases self.immune_types.len() - i,
        {
            immune_types.push(self.immune_types[i].duplicate());
            i += 1;
        }
        let mut effects: Vec<Effect> = Vec::new();
        let mut k: usize = 0;
        while k < self.effects.len()
            invariant
                k <= self.effects.len(),
                effects@ == self.effects@.take(k as int),
            decreases self.effects.len() - k,
        {
            effects.push(self.effects[k]);
            proof {
                assert(effects@ =~= self.effects@.take(k + 1 as int));
            }
            k += 1;
        }
        proof {
            assert(self.effects@.take(self.effects@.len() as int) =~= self.effects@);
        }
        let r = StatusCondition {
            id: copy_bytes(&self.id),
            volatility: self.volatility,
            immune_types,
            effects,
        };
        proof {
            assert(r@.immune_types =~= self@.immune_types);
            assert(r@ =~= self@);
        }
        r
    }
}

/// A status currently applied to a battle entity: the condition, the turns it
/// has left, and the move that caused it.
pub struct AppliedStatus {
    pub condition: StatusCondition,
    pub duration: i32,
    pub source_move: Move,
}

/// The mathematical model of an [`AppliedStatus`].
#[verifier::ext_equal]
pub struct AppliedStatusModel {
    pub condition: StatusConditionModel,
    pub duration: i32,
    pub source_move: MoveModel,
}

impl View for AppliedStatus {
    type V = AppliedStatusModel;

    open spec fn view(&self) -> AppliedStatusModel {
        AppliedStatusModel {
            condition: self.condition@,
            duration: self.duration,
            source_move: self.source_move@,
        }
    }
}

impl AppliedStatus {
    /// Spend one turn of the remaining duration.
    pub fn tick_down(&mut self)
        requires
            old(self).duration > i32::MIN,
        ensures
            final(self).duration == old(self).duration - 1,
            final(self).condition == old(self).condition,
            final(self).source_move == old(self).source_move,
    {
        self.duration = self.duration - 1;
    }

    /// The effects in force while this status is applied.
    pub fn effects(&self) -> (r: &Vec<Effect>)
        ensures
            r@ == self.condition.effects@,
    {
        &self.condition.effects
    }
}

} // verus!
