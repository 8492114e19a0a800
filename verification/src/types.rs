//! The type chart: elemental types, a species' pair of owned types, and the
//! combined damage multiplier of an attacking type against a type pair.
//!
//! All damage multipliers are exact rationals expressed in hundredths, so the
//! neutral multiplier is 100 and a double weakness is 250.

use vstd::prelude::*;

use crate::bytes::bytes_equal;
use crate::bytes::copy_byte_list;
use crate::bytes::copy_bytes;
use crate::bytes::id_list_contains;
use crate::bytes::id_list_has;
use crate::bytes::views_of;
use crate::Identifiable;

verus! {

/// An elemental type: an identifier plus the identifiers of the types this
/// type is weak to, resists, and is immune to. Relation lookups are made on
/// the defending type's lists.
pub struct Type {
    pub id: Vec<u8>,
    pub weakness_ids: Vec<Vec<u8>>,
    pub resistance_ids: Vec<Vec<u8>>,
    pub immunity_ids: Vec<Vec<u8>>,
}

/// The mathematical model of a [`Type`].
#[verifier::ext_equal]
pub struct TypeModel {
    pub id: Seq<u8>,
    pub weak: Seq<Seq<u8>>,
    pub resist: Seq<Seq<u8>>,
    pub immune: Seq<Seq<u8>>,
}

impl View for Type {
    type V = TypeModel;

    open spec fn view(&self) -> TypeModel {
        TypeModel {
            id: self.id@,
            weak: views_of(self.weakness_ids@),
            resist: views_of(self.resistance_ids@),
            immune: views_of(self.immunity_ids@),
        }
    }
}

impl Identifiable for Type {
    open spec fn spec_id(&self) -> Seq<u8> {
        self.id@
    }

    fn id(&self) -> (r: Vec<u8>) {
        copy_bytes(&self.id)
    }
}

/// How strongly an attacking type lands on one defending type. A defending
/// type on its own is never doubly weak or doubly resistant; the doubled
/// levels arise when the levels of a pair's two types are combined.
#[derive(Debug, PartialEq, Eq, Clone, Copy, Structural)]
pub enum WeaknessLevel {
    Immunity,
    DoubleResist,
    Resist,
    Neutral,
    Weak,
    DoubleWeak,
}

/// The weakness level of the defending type `def` against an attacker whose
/// type has identifier `attacker_id`: immunity wins over weakness, which wins
/// over resistance; anything unlisted is neutral.
pub open spec fn weakness_level_of(def: TypeModel, attacker_id: Seq<u8>) -> WeaknessLevel {
    if id_list_contains(def.immune, attacker_id) {
        WeaknessLevel::Immunity
    } else if id_list_contains(def.weak, attacker_id) {
        WeaknessLevel::Weak
    } else if id_list_contains(def.resist, attacker_id) {
        WeaknessLevel::Resist
    } else {
        WeaknessLevel::Neutral
    }
}

/// The signed contribution of one weakness level when levels are combined
/// across a pair: weakness counts +1 per step, resistance -1. Immunity does
/// not combine additively; it is treated as absorbing by the callers.
pub open spec fn level_score(l: WeaknessLevel) -> int {
    match l {
        WeaknessLevel::Immunity => 0,
        WeaknessLevel::DoubleResist => -2,
        WeaknessLevel::Resist => -1,
        WeaknessLevel::Neutral => 0,
        WeaknessLevel::Weak => 1,
        WeaknessLevel::DoubleWeak => 2,
    }
}

/// The damage multiplier, in hundredths, of a combined weakness score.
pub open spec fn score_multiplier_hundredths(score: int) -> int {
    if score <= -2 {
        40
    } else if score == -1 {
        50
    } else if score == 0 {
        100
    } else if score == 1 {
        200
    } else {
        250
    }
}

impl Type {
    /// The weakness level of `self` (defending) against `typ` (attacking).
    pub fn weakness_to(&self, typ: &Type) -> (r: WeaknessLevel)
        ensures
            r == weakness_level_of(self@, typ@.id),
    {
        if id_list_has(&self.immunity_ids, &typ.id) {
            WeaknessLevel::Immunity
        } else if id_list_has(&self.weakness_ids, &typ.id) {
            WeaknessLevel::Weak
        } else if id_list_has(&self.resistance_ids, &typ.id) {
            WeaknessLevel::Resist
        } else {
            WeaknessLevel::Neutral
        }
    }

    /// A fresh copy of this type record.
    pub fn duplicate(&self) -> (r: Type)
        ensures
            r@ == self@,
    {
        Type {
            id: copy_bytes(&self.id),
            weakness_ids: copy_byte_list(&self.weakness_ids),
            resistance_ids: copy_byte_list(&self.resistance_ids),
            immunity_ids: copy_byte_list(&self.immunity_ids),
        }
    }
}

/// A species' typing: exactly one primary type and an optional secondary type.
pub struct TypePair(pub Type, pub Option<Type>);

/// The mathematical model of a [`TypePair`].
#[verifier::ext_equal]
pub struct TypePairModel {
    pub primary: TypeModel,
    pub secondary: Option<TypeModel>,
}

impl View for TypePair {
    type V = TypePairModel;

    open spec fn view(&self) -> TypePairModel {
        TypePairModel {
            primary: self.0@,
            secondary: match self.1 {
                Some(t) => Some(t@),
                None => None,
            },
        }
    }
}

/// Whether the pair owns a type with identifier `id`.
pub open spec fn pair_has_type(pair: TypePairModel, id: Seq<u8>) -> bool {
    pair.primary.id == id || (pair.secondary matches Some(t) && t.id == id)
}

/// The combined damage multiplier, in hundredths, of an attack of type
/// `attacker_id` against the pair: each owned type's weakness level is scored
/// (weak +1, neutral 0, resist -1), the scores are added, and the sum is
/// mapped to a multiplier; immunity on either owned type is absorbing and
/// forces 0 regardless of the other type's relation.
pub open spec fn pair_multiplier_hundredths(pair: TypePairModel, attacker_id: Seq<u8>) -> int {
    let l0 = weakness_level_of(pair.primary, attacker_id);
    match pair.secondary {
        Some(t) => {
            let l1 = weakness_level_of(t, attacker_id);
            if l0 == WeaknessLevel::Immunity || l1 == WeaknessLevel::Immunity {
                0
            } else {
                score_multiplier_hundredths(level_score(l0) + level_score(l1))
            }
        },
        None => {
            if l0 == WeaknessLevel::Immunity {
                0
            } else {
                score_multiplier_hundredths(level_score(l0))
            }
        },
    }
}

impl TypePair {
    /// Whether the pair owns a type with the same identifier as `typ`.
    pub fn contains(&self, typ: &Type) -> (r: bool)
        ensures
            r == pair_has_type(self@, typ@.id),
    {
        if bytes_equal(&self.0.id, &typ.id) {
            return true;
        }
        match &self.1 {
            Some(t) => bytes_equal(&t.id, &typ.id),
            None => false,
        }
    }

    /// The combined damage multiplier, in hundredths, of an attack of type
    /// `typ` against this pair.
    pub fn damage_multiplier_from(&self, typ: &Type) -> (r: u32)
        ensures
            r == pair_multiplier_hundredths(self@, typ@.id),
    {
        let l0 = self.0.weakness_to(typ);
        let combined: i32 = match &self.1 {
            Some(t) => {
                let l1 = t.weakness_to(typ);
                if l0 == WeaknessLevel::Immunity || l1 == WeaknessLevel::Immunity {
                    return 0u32;
                }
                score_of(l0) + score_of(l1)
            },
            None => {
                if l0 == WeaknessLevel::Immunity {
                    return 0u32;
                }
                score_of(l0)
            },
        };
        if combined <= -2 {
            40
        } else if combined == -1 {
            50
        } else if combined == 0 {
            100
        } else if combined == 1 {
            200
        } else {
            250
        }
    }

    /// A fresh copy of this type pair.
    pub fn duplicate(&self) -> (r: TypePair)
        ensures
            r@ == self@,
    {
        TypePair(
            self.0.duplicate(),
            match &self.1 {
                Some(t) => Some(t.duplicate()),
                None => None,
            },
        )
    }
}

/// Executable counterpart of [`level_score`].
fn score_of(l: WeaknessLevel) -> (r: i32)
    ensures
        r == level_score(l),
{
    match l {
        WeaknessLevel::Immunity => 0,
        WeaknessLevel::DoubleResist => -2,
        WeaknessLevel::Resist => -1,
        WeaknessLevel::Neutral => 0,
        WeaknessLevel::Weak => 1,
        WeaknessLevel::DoubleWeak => 2,
    }
}

/// Immunity is absorbing: if either owned type of a pair is immune to the
/// attacking type, the pair's combined multiplier is exactly 0, regardless of
/// the other owned type's relation to the attacker.
pub proof fn lemma_immunity_absorbs(pair: TypePairModel, attacker_id: Seq<u8>)
    requires
        id_list_contains(pair.primary.immune, attacker_id) || (pair.secondary matches Some(t)
            && id_list_contains(t.immune, attacker_id)),
    ensures
        pair_multiplier_hundredths(pair, attacker_id) == 0,
{
}

} // verus!
