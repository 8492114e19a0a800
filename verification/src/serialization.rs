//! Unresolved content records: the shapes content files are decoded into,
//! with cross-references still held as identifiers, and their resolution
//! against a type table into fully linked core records.
//!
//! Resolution fails (returns `None`) exactly when a referenced type
//! identifier is absent from the table, surfacing the content-integrity
//! failure to the loading collaborator instead of handing the core a
//! partially populated record.

use vstd::prelude::*;

use crate::bytes::copy_bytes;
use crate::moves::Category;
use crate::moves::Move;
use crate::moves::MoveEffect;
use crate::moves::StyleTriad;
use crate::pokemon::Species;
use crate::stats::StatBlock;
use crate::status::Effect;
use crate::status::StatusCondition;
use crate::status::Volatility;
use crate::types::Type;
use crate::types::TypePair;
use crate::Identifiable;

verus! {

/// Whether the type table holds a type with identifier `id`.
pub open spec fn type_table_contains(types: Seq<Type>, id: Seq<u8>) -> bool {
    exists|i: int| 0 <= i < types.len() && types[i].id@ == id
}

/// Whether `t` is the model of some entry of the type table.
pub open spec fn is_table_entry(types: Seq<Type>, t: crate::types::TypeModel) -> bool {
    exists|i: int| 0 <= i < types.len() && types[i]@ == t
}

/// The first index of the type table holding a type with identifier `id`.
fn find_type(types: &Vec<Type>, id: &Vec<u8>) -> (r: Option<usize>)
    ensures
        match r {
            Some(i) => i < types@.len() && types@[i as int].id@ == id@,
            None => !type_table_contains(types@, id@),
        },
{
    let mut i: usize = 0;
    while i < types.len()
        invariant
            i <= types.len(),
            forall|j: int| 0 <= j < i ==> types@[j].id@ != id@,
        decreases types.len() - i,
    {
        if crate::bytes::bytes_equal(&types[i].id, id) {
            return Some(i);
        }
        i += 1;
    }
    None
}

/// A move record as decoded from content, its owning type still an
/// identifier.
pub struct SerMove {
    pub id: Vec<u8>,
    pub move_type: Vec<u8>,
    pub category: Category,
    pub pp: u32,
    pub power: StyleTriad<i32>,
    pub accuracy: StyleTriad<i32>,
    pub user_action_time: StyleTriad<i32>,
    pub target_action_time: StyleTriad<i32>,
    pub crit_stage: StyleTriad<i32>,
    pub effects: Vec<MoveEffect>,
}

impl Identifiable for SerMove {
    open spec fn spec_id(&self) -> Seq<u8> {
        self.id@
    }

    fn id(&self) -> (r: Vec<u8>) {
        copy_bytes(&self.id)
    }
}

impl SerMove {
    /// Resolve this record against the type table: `None` exactly when the
    /// owning type's identifier is absent.
    pub fn into_move(self, types: &Vec<Type>) -> (r: Option<Move>)
        ensures
            r is Some <==> type_table_contains(types@, self.move_type@),
            r matches Some(m) ==> {
                &&& m@.id == self.id@
                &&& m@.move_type.id == self.move_type@
                &&& is_table_entry(types@, m@.move_type)
                &&& m.category == self.category
                &&& m.pp == self.pp
                &&& m.power == self.power
                &&& m.accuracy == self.accuracy
                &&& m.user_action_time == self.user_action_time
                &&& m.target_action_time == self.target_action_time
                &&& m.crit_stage == self.crit_stage
                &&& m@.effects == self.effects@.map_values(|e: MoveEffect| e@)
            },
    {
        match find_type(types, &self.move_type) {
            Some(i) => {
                let move_type = types[i].duplicate();
                Some(
                    Move {
                        id: self.id,
                        move_type,
                        category: self.category,
                        pp: self.pp,
                        power: self.power,
                        accuracy: self.accuracy,
                        user_action_time: self.user_action_time,
                        target_action_time: self.target_action_time,
                        crit_stage: self.crit_stage,
                        effects: self.effects,
                    },
                )
            },
            None => None,
        }
    }
}

/// A species record as decoded from content, its one or two types still
/// identifiers.
pub struct SerSpecies {
    pub id: Vec<u8>,
    pub base_stats: StatBlock,
    pub types: (Vec<u8>, Option<Vec<u8>>),
}

impl Identifiable for SerSpecies {
    open spec fn spec_id(&self) -> Seq<u8> {
        self.id@
    }

    fn id(&self) -> (r: Vec<u8>) {
        copy_bytes(&self.id)
    }
}

impl SerSpecies {
    /// Resolve this record against the type table: `None` exactly when the
    /// primary type's identifier is absent. A secondary identifier absent
    /// from the table leaves the species with no secondary type.
    pub fn into_species(self, types: &Vec<Type>) -> (r: Option<Species>)
        ensures
            r is Some <==> type_table_contains(types@, self.types.0@),
            r matches Some(sp) ==> {
                &&& sp@.id == self.id@
                &&& sp.base_stats == self.base_stats
                &&& sp@.types.primary.id == self.types.0@
                &&& is_table_entry(types@, sp@.types.primary)
                &&& (self.types.1 is None ==> sp@.types.secondary is None)
                &&& (match self.types.1 {
                    Some(sid) => if type_table_contains(types@, sid@) {
                        sp@.types.secondary matches Some(t) && t.id == sid@ && is_table_entry(
                            types@,
                            t,
                        )
                    } else {
                        sp@.types.secondary is None
                    },
                    None => true,
                })
            },
    {
        match find_type(types, &self.types.0) {
            Some(i) => {
                let primary = types[i].duplicate();
                let secondary = match &self.types.1 {
                    Some(sid) => match find_type(types, sid) {
                        Some(j) => Some(types[j].duplicate()),
                        None => None,
                    },
                    None => None,
                };
                Some(
                    Species {
                        id: self.id,
                        base_stats: self.base_stats,
                        types: TypePair(primary, secondary),
                    },
                )
            },
            None => None,
        }
    }
}

/// A status-condition record as decoded from content, its immune types
/// still identifiers.
pub struct SerStatus {
    pub id: Vec<u8>,
    pub volatility: Volatility,
    pub immune_type_ids: Vec<Vec<u8>>,
    pub effects: Vec<Effect>,
}

impl Identifiable for SerStatus {
    open spec fn spec_id(&self) -> Seq<u8> {
        self.id@
    }

    fn id(&self) -> (r: Vec<u8>) {
        copy_bytes(&self.id)
    }
}

impl SerStatus {
    /// Resolve this record against the type table: `None` exactly when some
    /// immune-type identifier is absent.
    pub fn into_status(self, types: &Vec<Type>) -> (r: Option<StatusCondition>)
        ensures
            r is Some <==> (forall|j: int|
                0 <= j < self.immune_type_ids@.len() ==> type_table_contains(
                    types@,
                    #[trigger] self.immune_type_ids@[j]@,
                )),
            r matches Some(st) ==> {
                &&& st@.id == self.id@
                &&& st.volatility == self.volatility
                &&& st@.effects == self.effects@
                &&& st@.immune_types.len() == self.immune_type_ids@.len()
                &&& (forall|j: int|
                    0 <= j < st@.immune_types.len() ==> #[trigger] st@.immune_types[j].id
                        == self.immune_type_ids@[j]@)
                &&& (forall|j: int|
                    0 <= j < st@.immune_types.len() ==> is_table_entry(
                        types@,
                        #[trigger] st@.immune_types[j],
                    ))
            },
    {
        let mut immune_types: Vec<Type> = Vec::new();
        let mut k: usize = 0;
        while k < self.immune_type_ids.len()
            invariant
                k <= self.immune_type_ids@.len(),
                immune_types@.len() == k,
                forall|j: int|
                    0 <= j < k ==> #[trigger] immune_types@[j]@.id
                        == self.immune_type_ids@[j]@,
                forall|j: int|
                    0 <= j < k ==> is_table_entry(types@, #[trigger] immune_types@[j]@),
                forall|j: int|
                    0 <= j < k ==> type_table_contains(
                        types@,
                        #[trigger] self.immune_type_ids@[j]@,
                    ),
            decreases self.immune_type_ids@.len() - k,
        {
            match find_type(types, &self.immune_type_ids[k]) {
                Some(i) => {
                    immune_types.push(types[i].duplicate());
                    proof {
                        assert(immune_types@[k as int]@ == types@[i as int]@);
                        assert(is_table_entry(types@, immune_types@[k as int]@));
                    }
                },
                None => {
                    return None;
                },
            }
            k += 1;
        }
        let ghost imm = immune_types@;
        let r = StatusCondition {
            id: self.id,
            volatility: self.volatility,
            immune_types,
            effects: self.effects,
        };
        proof {
            assert(r@.immune_types.len() == imm.len());
            assert forall|j: int| 0 <= j < r@.immune_types.len() implies #[trigger] r@
                .immune_types[j] == imm[j]@ by {}
        }
        Some(r)
    }
}

} // verus!
