//! The stat model: stat identifiers, the six-field stat vector, nature skew,
//! the diminishing-returns effort bonus, and the speed-to-action-time tiers.
//!
//! Nature multipliers are exact rationals expressed in hundredths (so the
//! increased stat's multiplier is 110 and the decreased stat's is 90).

use vstd::arithmetic::div_mod::lemma_div_is_ordered;
use vstd::prelude::*;

verus! {

/// A battle stat.
#[derive(Debug, Hash, PartialEq, Eq, Clone, Copy, Structural)]
pub enum Stat {
    Hp,
    Atk,
    Def,
    SpAtk,
    SpDef,
    Spe,
}

/// The action-time tier of an effective speed: lower speed gives a higher
/// action-time number, so slower entities act later.
pub open spec fn base_action_time_spec(speed: int) -> int {
    if speed <= 15 {
        14
    } else if speed <= 31 {
        13
    } else if speed <= 55 {
        12
    } else if speed <= 88 {
        11
    } else if speed <= 129 {
        10
    } else if speed <= 181 {
        9
    } else if speed <= 242 {
        8
    } else if speed <= 316 {
        7
    } else if speed <= 401 {
        6
    } else {
        5
    }
}

/// The action-time tier of an effective speed.
pub fn base_action_time(speed: i32) -> (t: i32)
    ensures
        t == base_action_time_spec(speed as int),
{
    if speed <= 15 {
        14
    } else if speed <= 31 {
        13
    } else if speed <= 55 {
        12
    } else if speed <= 88 {
        11
    } else if speed <= 129 {
        10
    } else if speed <= 181 {
        9
    } else if speed <= 242 {
        8
    } else if speed <= 316 {
        7
    } else if speed <= 401 {
        6
    } else {
        5
    }
}

/// A nature: one increased and one decreased stat. When the two coincide the
/// nature carries no skew at all.
#[derive(Debug, Clone, Copy, PartialEq, Eq, Structural)]
pub struct Nature {
    pub increased: Stat,
    pub decreased: Stat,
}

/// The nature's multiplier for `stat`, in hundredths: 100 for every stat when
/// increased and decreased coincide, otherwise 110 for the increased stat,
/// 90 for the decreased stat, and 100 for every other stat.
pub open spec fn nature_multiplier_hundredths(n: Nature, stat: Stat) -> int {
    if n.increased == n.decreased {
        100
    } else if stat == n.increased {
        110
    } else if stat == n.decreased {
        90
    } else {
        100
    }
}

impl Default for Nature {
    /// The skew-free nature.
    fn default() -> (n: Self)
        ensures
            n.increased == Stat::Spe,
            n.decreased == Stat::Spe,
    {
        Nature { increased: Stat::Spe, decreased: Stat::Spe }
    }
}

impl Nature {
    /// The nature's multiplier for `stat`, in hundredths.
    pub fn multiplier(self, stat: Stat) -> (m: u32)
        ensures
            m == nature_multiplier_hundredths(self, stat),
    {
        if self.increased == self.decreased {
            100
        } else if stat == self.increased {
            110
        } else if stat == self.decreased {
            90
        } else {
            100
        }
    }
}

/// A nature with no skew leaves every stat's multiplier at exactly 100
/// hundredths.
pub proof fn lemma_nature_no_skew(n: Nature, stat: Stat)
    requires
        n.increased == n.decreased,
    ensures
        nature_multiplier_hundredths(n, stat) == 100,
{
}

/// A skewed nature multiplies the increased stat by exactly 110 hundredths,
/// the decreased stat by exactly 90, and every other stat by exactly 100.
pub proof fn lemma_nature_skew(n: Nature, stat: Stat)
    requires
        n.increased != n.decreased,
    ensures
        stat == n.increased ==> nature_multiplier_hundredths(n, stat) == 110,
        stat == n.decreased ==> nature_multiplier_hundredths(n, stat) == 90,
        stat != n.increased && stat != n.decreased ==> nature_multiplier_hundredths(n, stat)
            == 100,
{
}

/// The failure reported when a stat name cannot be recognised.
#[derive(Debug)]
pub struct ParseStatError;

/// One integer per stat.
#[derive(Debug, Clone, Copy, PartialEq, Eq, Structural)]
pub struct StatBlock {
    pub hp: i32,
    pub atk: i32,
    pub def: i32,
    pub spatk: i32,
    pub spdef: i32,
    pub spe: i32,
}

/// The field of `sb` that belongs to `stat`.
pub open spec fn stat_of(sb: StatBlock, stat: Stat) -> i32 {
    match stat {
        Stat::Hp => sb.hp,
        Stat::Atk => sb.atk,
        Stat::Def => sb.def,
        Stat::SpAtk => sb.spatk,
        Stat::SpDef => sb.spdef,
        Stat::Spe => sb.spe,
    }
}

impl StatBlock {
    /// The entry for `stat`.
    pub fn get(&self, stat: Stat) -> (r: i32)
        ensures
            r == stat_of(*self, stat),
    {
        match stat {
            Stat::Hp => self.hp,
            Stat::Atk => self.atk,
            Stat::Def => self.def,
            Stat::SpAtk => self.spatk,
            Stat::SpDef => self.spdef,
            Stat::Spe => self.spe,
        }
    }

    /// The block holding `val` for every stat.
    pub fn all(val: i32) -> (r: Self)
        ensures
            forall|s: Stat| stat_of(r, s) == val,
    {
        StatBlock { hp: val, atk: val, def: val, spatk: val, spdef: val, spe: val }
    }

    /// The block whose entry for each stat is `generator`'s result on it.
    pub fn for_each_stat<F: Fn(Stat) -> i32>(generator: F) -> (r: Self)
        requires
            forall|s: Stat| #[trigger] generator.requires((s,)),
        ensures
            generator.ensures((Stat::Hp,), r.hp),
            generator.ensures((Stat::Atk,), r.atk),
            generator.ensures((Stat::Def,), r.def),
            generator.ensures((Stat::SpAtk,), r.spatk),
            generator.ensures((Stat::SpDef,), r.spdef),
            generator.ensures((Stat::Spe,), r.spe),
    {
        StatBlock {
            hp: generator(Stat::Hp),
            atk: generator(Stat::Atk),
            def: generator(Stat::Def),
            spatk: generator(Stat::SpAtk),
            spdef: generator(Stat::SpDef),
            spe: generator(Stat::Spe),
        }
    }

    /// The block whose entry for each stat is `transform` applied to the old
    /// entry and `generator`'s result on the stat.
    pub fn map_all<T, F: Fn(i32, T) -> i32, G: Fn(Stat) -> T>(
        self,
        generator: G,
        transform: F,
    ) -> (r: Self)
        requires
            forall|s: Stat| #[trigger] generator.requires((s,)),
            forall|s: Stat, t: T|
                #[trigger] generator.ensures((s,), t) ==> transform.requires(
                    (stat_of(self, s), t),
                ),
        ensures
            exists|t: T|
                #[trigger] generator.ensures((Stat::Hp,), t) && transform.ensures(
                    (self.hp, t),
                    r.hp,
                ),
            exists|t: T|
                #[trigger] generator.ensures((Stat::Atk,), t) && transform.ensures(
                    (self.atk, t),
                    r.atk,
                ),
            exists|t: T|
                #[trigger] generator.ensures((Stat::Def,), t) && transform.ensures(
                    (self.def, t),
                    r.def,
                ),
            exists|t: T|
                #[trigger] generator.ensures((Stat::SpAtk,), t) && transform.ensures(
                    (self.spatk, t),
                    r.spatk,
                ),
            exists|t: T|
                #[trigger] generator.ensures((Stat::SpDef,), t) && transform.ensures(
                    (self.spdef, t),
                    r.spdef,
                ),
            exists|t: T|
                #[trigger] generator.ensures((Stat::Spe,), t) && transform.ensures(
                    (self.spe, t),
                    r.spe,
                ),
    {
        StatBlock {
            hp: transform(self.hp, generator(Stat::Hp)),
            atk: transform(self.atk, generator(Stat::Atk)),
            def: transform(self.def, generator(Stat::Def)),
            spatk: transform(self.spatk, generator(Stat::SpAtk)),
            spdef: transform(self.spdef, generator(Stat::SpDef)),
            spe: transform(self.spe, generator(Stat::Spe)),
        }
    }
}

/// The fixed effort table: the multiplier earned by each effort level 0..=10.
pub open spec fn effort_multiplier_spec(effort_level: int) -> int {
    if effort_level == 0 {
        0
    } else if effort_level == 1 {
        2
    } else if effort_level == 2 {
        3
    } else if effort_level == 3 {
        4
    } else if effort_level == 4 {
        7
    } else if effort_level == 5 {
        8
    } else if effort_level == 6 {
        9
    } else if effort_level == 7 {
        14
    } else if effort_level == 8 {
        15
    } else if effort_level == 9 {
        16
    } else if effort_level == 10 {
        25
    } else {
        0
    }
}

/// The integer square root: the largest `r` with `r * r <= n`, defined by
/// counting up from zero.
pub open spec fn sqrt_floor(n: nat) -> nat
    decreases n,
{
    if n == 0 {
        0
    } else {
        let r = sqrt_floor((n - 1) as nat);
        if (r + 1) * (r + 1) <= n {
            r + 1
        } else {
            r
        }
    }
}

/// `sqrt_floor(n)` squares to at most `n`, and the next integer squares past
/// `n`.
pub proof fn lemma_sqrt_floor_bounds(n: nat)
    ensures
        sqrt_floor(n) * sqrt_floor(n) <= n,
        n < (sqrt_floor(n) + 1) * (sqrt_floor(n) + 1),
    decreases n,
{
    if n > 0 {
        lemma_sqrt_floor_bounds((n - 1) as nat);
        let r = sqrt_floor((n - 1) as nat);
        assert(sqrt_floor(n) == if (r + 1) * (r + 1) <= n {
            (r + 1) as nat
        } else {
            r
        }) by {
            reveal_with_fuel(sqrt_floor, 2);
        }
        if (r + 1) * (r + 1) <= n {
            assert(sqrt_floor(n) == r + 1);
            assert((r + 2) * (r + 2) > n) by (nonlinear_arith)
                requires
                    n - 1 < (r + 1) * (r + 1),
            ;
            assert((sqrt_floor(n) + 1) * (sqrt_floor(n) + 1) == (r + 2) * (r + 2));
        } else {
            assert(sqrt_floor(n) == r);
            assert(r * r <= n - 1 <= n);
            assert(n < (r + 1) * (r + 1));
        }
    } else {
        let s = sqrt_floor(n);
        assert(n == 0);
        assert(s == 0);
        assert((s + 1) * (s + 1) == 1) by (nonlinear_arith)
            requires
                s == 0nat,
        ;
    }
}

/// `sqrt_floor` is the only value bracketing `n` between consecutive squares.
pub proof fn lemma_sqrt_floor_unique(n: nat, r: nat)
    requires
        r * r <= n,
        n < (r + 1) * (r + 1),
    ensures
        r == sqrt_floor(n),
{
    lemma_sqrt_floor_bounds(n);
    let s = sqrt_floor(n);
    assert(r == s) by (nonlinear_arith)
        requires
            r * r <= n,
            n < (r + 1) * (r + 1),
            s * s <= n,
            n < (s + 1) * (s + 1),
    ;
}

/// `sqrt_floor` never decreases as its argument grows.
pub proof fn lemma_sqrt_floor_monotone(a: nat, b: nat)
    requires
        a <= b,
    ensures
        sqrt_floor(a) <= sqrt_floor(b),
    decreases b,
{
    if a < b {
        lemma_sqrt_floor_monotone(a, (b - 1) as nat);
    }
}

/// The integer square root of `n`.
fn isqrt(n: u64) -> (r: u64)
    ensures
        r == sqrt_floor(n as nat),
{
    let mut r: u64 = 0;
    while ((r as u128) + 1) * ((r as u128) + 1) <= (n as u128)
        invariant
            (r as int) * (r as int) <= n as int,
            r <= n,
            r <= 0xFFFF_FFFF,
            ((r as int) + 1) * ((r as int) + 1) <= 0x1_0000_0000_0000_0000i128,
        decreases n - r,
    {
        proof {
            assert(((r as int) + 1) * ((r as int) + 1) <= n as int);
            assert(r + 1 <= n && r + 1 <= 0xFFFF_FFFF && ((r as int) + 2) * ((r as int) + 2)
                <= 0x1_0000_0000_0000_0000i128) by (nonlinear_arith)
                requires
                    ((r as int) + 1) * ((r as int) + 1) <= n as int,
                    n as int <= 0xFFFF_FFFF_FFFF_FFFFu64,
            ;
        }
        r = r + 1;
    }
    proof {
        lemma_sqrt_floor_unique(n as nat, r as nat);
    }
    r
}

/// The effort bonus earned by investing `effort_level` in a stat whose base
/// value is `base_stat`, at entity level `pokemon_level`: the nearest integer
/// to `(sqrt(base_stat) * table[effort_level] + pokemon_level) / 2.5`.
///
/// Rounding half up, that real number's rounded value equals
/// `floor((4 * table * sqrt(base_stat) + 4 * level + 5) / 10)`, and
/// `floor(4 * table * sqrt(base_stat))` is `sqrt_floor(16 * table^2 * base)`,
/// which this definition uses so the whole value is exact integer arithmetic.
pub open spec fn effort_bonus_value(effort_level: int, pokemon_level: int, base_stat: int) -> int {
    let t = effort_multiplier_spec(effort_level);
    (sqrt_floor((16 * t * t * base_stat) as nat) + 4 * pokemon_level + 5) as int / 10
}

/// The effort bonus for `effort_level` of investment, or `None` exactly when
/// the effort level lies outside 0..=10.
pub fn effort_bonus(effort_level: i32, pokemon_level: u8, base_stat: i32) -> (r: Option<i32>)
    requires
        base_stat >= 0,
    ensures
        r is Some <==> 0 <= effort_level <= 10,
        r matches Some(v) ==> v == effort_bonus_value(
            effort_level as int,
            pokemon_level as int,
            base_stat as int,
        ),
{
    let t = match effort_multiplier(effort_level) {
        Some(t) => t,
        None => {
            return None;
        },
    };
    proof {
        assert((t as int) * (t as int) <= 625) by (nonlinear_arith)
            requires
                0 <= t <= 25,
        ;
    }
    let tt: u64 = (t as u64) * (t as u64);
    proof {
        assert(16 * (tt as int) * (base_stat as int) <= 10000 * 0x7FFF_FFFFi64) by (
        nonlinear_arith)
            requires
                0 <= tt <= 625,
                0 <= base_stat <= 0x7FFF_FFFF,
        ;
    }
    let square: u64 = 16u64 * tt * (base_stat as u64);
    let root: u64 = isqrt(square);
    proof {
        lemma_sqrt_floor_bounds(square as nat);
        assert(root <= 5_000_000) by (nonlinear_arith)
            requires
                (root as int) * (root as int) <= square as int,
                square as int <= 10000 * 0x7FFF_FFFFi64,
        ;
        assert(square as int == 16 * (t as int) * (t as int) * (base_stat as int));
    }
    let bonus: u64 = (root + 4 * (pokemon_level as u64) + 5) / 10;
    Some(bonus as i32)
}

/// The effort table entry for `effort_level`, or `None` exactly when the
/// level lies outside 0..=10.
fn effort_multiplier(effort_level: i32) -> (r: Option<i32>)
    ensures
        r is Some <==> 0 <= effort_level <= 10,
        r matches Some(v) ==> v == effort_multiplier_spec(effort_level as int) && 0 <= v <= 25,
{
    if effort_level == 0 {
        Some(0)
    } else if effort_level == 1 {
        Some(2)
    } else if effort_level == 2 {
        Some(3)
    } else if effort_level == 3 {
        Some(4)
    } else if effort_level == 4 {
        Some(7)
    } else if effort_level == 5 {
        Some(8)
    } else if effort_level == 6 {
        Some(9)
    } else if effort_level == 7 {
        Some(14)
    } else if effort_level == 8 {
        Some(15)
    } else if effort_level == 9 {
        Some(16)
    } else if effort_level == 10 {
        Some(25)
    } else {
        None
    }
}

/// For any base stat at least 0 and any entity level, the effort bonus never
/// decreases as the effort level grows through 0..=10.
pub proof fn lemma_effort_bonus_monotone(e1: int, e2: int, pokemon_level: int, base_stat: int)
    requires
        0 <= e1 <= e2 <= 10,
        base_stat >= 0,
    ensures
        effort_bonus_value(e1, pokemon_level, base_stat) <= effort_bonus_value(
            e2,
            pokemon_level,
            base_stat,
        ),
{
    let t1 = effort_multiplier_spec(e1);
    let t2 = effort_multiplier_spec(e2);
    assert(0 <= t1 <= t2);
    assert(16 * t1 * t1 * base_stat <= 16 * t2 * t2 * base_stat) by (nonlinear_arith)
        requires
            0 <= t1 <= t2,
            base_stat >= 0,
    ;
    lemma_sqrt_floor_monotone((16 * t1 * t1 * base_stat) as nat, (16 * t2 * t2 * base_stat) as nat);
    lemma_div_is_ordered(
        sqrt_floor((16 * t1 * t1 * base_stat) as nat) + 4 * pokemon_level + 5,
        sqrt_floor((16 * t2 * t2 * base_stat) as nat) + 4 * pokemon_level + 5,
        10,
    );
}

} // verus!
