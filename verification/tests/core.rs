use battle_core::moves::Category;
use battle_core::moves::Move;
use battle_core::moves::MoveEffectCondition;
use battle_core::moves::Style;
use battle_core::moves::StyleTriad;
use battle_core::pokemon::BattlePokemon;
use battle_core::pokemon::Pokemon;
use battle_core::pokemon::Side;
use battle_core::pokemon::Species;
use battle_core::stats::base_action_time;
use battle_core::stats::effort_bonus;
use battle_core::stats::Nature;
use battle_core::stats::Stat;
use battle_core::stats::StatBlock;
use battle_core::status::Effect;
use battle_core::status::StatusCondition;
use battle_core::status::Volatility;
use battle_core::types::Type;
use battle_core::types::TypePair;
use battle_core::types::WeaknessLevel;
use battle_core::Identifiable;

fn plain_type(id: &str) -> Type {
    Type {
        id: id.as_bytes().to_vec(),
        weakness_ids: Vec::new(),
        resistance_ids: Vec::new(),
        immunity_ids: Vec::new(),
    }
}

fn fire_type() -> Type {
    plain_type("fire")
}

fn grass_type() -> Type {
    Type {
        id: b"grass".to_vec(),
        weakness_ids: vec![b"fire".to_vec()],
        resistance_ids: Vec::new(),
        immunity_ids: Vec::new(),
    }
}

fn poison_type() -> Type {
    plain_type("poison")
}

fn ghost_like_type() -> Type {
    Type {
        id: b"spectral".to_vec(),
        weakness_ids: Vec::new(),
        resistance_ids: Vec::new(),
        immunity_ids: vec![b"normal".to_vec()],
    }
}

fn species(id: &str, primary: Type, secondary: Option<Type>) -> Species {
    Species {
        id: id.as_bytes().to_vec(),
        base_stats: StatBlock::all(100),
        types: TypePair(primary, secondary),
    }
}

fn tackle_like_move(id: &str, typ: Type, category: Category, power: i32) -> Move {
    Move {
        id: id.as_bytes().to_vec(),
        move_type: typ,
        category,
        pp: 25,
        power: StyleTriad::all(power),
        accuracy: StyleTriad::all(100),
        user_action_time: StyleTriad::all(0),
        target_action_time: StyleTriad::all(0),
        crit_stage: StyleTriad::all(0),
        effects: Vec::new(),
    }
}

fn battle_entity(sp: Species) -> BattlePokemon {
    BattlePokemon::new(Pokemon::new(sp))
}

#[test]
fn weakness_levels_follow_the_defenders_lists() {
    let fire = fire_type();
    let grass = grass_type();
    let spectral = ghost_like_type();
    let normal = plain_type("normal");
    assert!(matches!(grass.weakness_to(&fire), WeaknessLevel::Weak));
    assert!(matches!(fire.weakness_to(&grass), WeaknessLevel::Neutral));
    assert!(matches!(spectral.weakness_to(&normal), WeaknessLevel::Immunity));
}

#[test]
fn immunity_absorbs_regardless_of_other_type() {
    // The pair's other member is weak to the attacker, yet immunity on one
    // owned type forces the combined multiplier to exactly 0.
    let normal = plain_type("normal");
    let mut weak_to_normal = plain_type("frail");
    weak_to_normal.weakness_ids.push(b"normal".to_vec());
    let pair = TypePair(ghost_like_type(), Some(weak_to_normal));
    assert_eq!(pair.damage_multiplier_from(&normal), 0);
    let pair_flipped = TypePair(
        {
            let mut t = plain_type("frail");
            t.weakness_ids.push(b"normal".to_vec());
            t
        },
        Some(ghost_like_type()),
    );
    assert_eq!(pair_flipped.damage_multiplier_from(&normal), 0);
}

#[test]
fn combined_multiplier_tiers() {
    let fire = fire_type();
    // grass/poison vs fire: weak + neutral = one step up -> 200 hundredths.
    let pair = TypePair(grass_type(), Some(poison_type()));
    assert_eq!(pair.damage_multiplier_from(&fire), 200);
    // double weakness -> 250 hundredths.
    let mut also_weak = plain_type("icy");
    also_weak.weakness_ids.push(b"fire".to_vec());
    let pair2 = TypePair(grass_type(), Some(also_weak));
    assert_eq!(pair2.damage_multiplier_from(&fire), 250);
    // resist + neutral -> 50; double resist -> 40.
    let mut resists = plain_type("watery");
    resists.resistance_ids.push(b"fire".to_vec());
    let pair3 = TypePair(
        {
            let mut t = plain_type("rocky");
            t.resistance_ids.push(b"fire".to_vec());
            t
        },
        Some(resists),
    );
    assert_eq!(pair3.damage_multiplier_from(&fire), 40);
    let pair4 = TypePair(plain_type("plain"), None);
    assert_eq!(pair4.damage_multiplier_from(&fire), 100);
}

#[test]
fn effort_bonus_fails_exactly_outside_range() {
    assert!(effort_bonus(11, 100, 100).is_none());
    assert!(effort_bonus(-1, 100, 100).is_none());
    for e in 0..=10 {
        assert!(effort_bonus(e, 100, 100).is_some());
    }
}

#[test]
fn effort_bonus_is_non_decreasing_in_effort() {
    for base in [0, 1, 50, 100, 255, 1000] {
        let mut prev = effort_bonus(0, 100, base).unwrap();
        for e in 1..=10 {
            let cur = effort_bonus(e, 100, base).unwrap();
            assert!(cur >= prev);
            prev = cur;
        }
    }
}

#[test]
fn effort_bonus_exact_value() {
    // round((sqrt(100) * 25 + 100) / 2.5) = round(140) = 140.
    assert_eq!(effort_bonus(10, 100, 100).unwrap(), 140);
    // round((sqrt(0) * 0 + 100) / 2.5) = 40.
    assert_eq!(effort_bonus(0, 100, 0).unwrap(), 40);
}

#[test]
fn nature_multiplier_cases() {
    let skewed = Nature { increased: Stat::Atk, decreased: Stat::Spe };
    assert_eq!(skewed.multiplier(Stat::Atk), 110);
    assert_eq!(skewed.multiplier(Stat::Spe), 90);
    assert_eq!(skewed.multiplier(Stat::Def), 100);
    let flat = Nature { increased: Stat::Atk, decreased: Stat::Atk };
    assert_eq!(flat.multiplier(Stat::Atk), 100);
    assert_eq!(flat.multiplier(Stat::Spe), 100);
    let default = Nature::default();
    assert_eq!(default.multiplier(Stat::Spe), 100);
}

#[test]
fn computed_stats_follow_the_formula() {
    // level 100, base 100 everywhere, effort 10, no skew:
    // HP: 100*100/100 + 100 + 100 + 140 = 440; others: 150*100*100/7500 + 140 = 340.
    let p = Pokemon::new(species("sample", fire_type(), None));
    let stats = p.stats();
    assert_eq!(stats.hp, 440);
    assert_eq!(stats.atk, 340);
    assert_eq!(stats.spe, 340);
}

#[test]
fn speed_tier_table() {
    assert_eq!(base_action_time(100), 10);
    assert_eq!(base_action_time(15), 14);
    assert_eq!(base_action_time(16), 13);
    assert_eq!(base_action_time(340), 6);
    assert_eq!(base_action_time(402), 5);
    assert_eq!(base_action_time(5000), 5);
}

#[test]
fn unmodified_effective_speed_sets_the_action_tier() {
    // A level-100 entity with base Speed 100, full effort and no nature skew
    // computes Speed 340; with no status effects the effective value is the
    // computed one, and 317..=401 maps to tier 6.
    let b = battle_entity(species("sample", fire_type(), None));
    let eff = b.effective_stats();
    assert_eq!(eff.spe, 340);
    assert_eq!(b.base_action_time(), 6);
}

#[test]
fn fire_against_grass_poison_no_roll_damage() {
    // Attacker and defender have base 100 everywhere at level 100, so the
    // attack and defense stats are both 340. Base damage:
    // (100 + 340 + 1500) * 100 / 390 / 5 = 99. Type multiplier 2.0 (weak +
    // neutral), same-type bonus 1.25, no effects: floor(99 * 2.0 * 1.25) = 247.
    let attacker = battle_entity(species("flamey", fire_type(), None));
    let defender = battle_entity(species("thorny", grass_type(), Some(poison_type())));
    let dmg = BattlePokemon::calculate_damage_no_roll(
        &attacker,
        &defender,
        &StyleTriad::all(100),
        Category::Physical,
        &fire_type(),
        Style::Regular,
    );
    assert_eq!(dmg, 247);
}

#[test]
fn no_roll_damage_is_deterministic() {
    let attacker = battle_entity(species("flamey", fire_type(), None));
    let defender = battle_entity(species("thorny", grass_type(), Some(poison_type())));
    let d1 = BattlePokemon::calculate_damage_no_roll(
        &attacker,
        &defender,
        &StyleTriad::all(100),
        Category::Physical,
        &fire_type(),
        Style::Regular,
    );
    let d2 = BattlePokemon::calculate_damage_no_roll(
        &attacker,
        &defender,
        &StyleTriad::all(100),
        Category::Physical,
        &fire_type(),
        Style::Regular,
    );
    assert_eq!(d1, d2);
}

fn halving_status(id: &str, category: Category) -> StatusCondition {
    StatusCondition {
        id: id.as_bytes().to_vec(),
        volatility: Volatility::Volatile,
        immune_types: Vec::new(),
        effects: vec![Effect::DamageMultiplier {
            side: Side::Target,
            multiplier: 50,
            move_category: category,
        }],
    }
}

#[test]
fn category_mismatch_contributes_nothing() {
    // A target-side halving multiplier recorded for Special moves leaves a
    // Physical move's damage untouched.
    let attacker = battle_entity(species("flamey", fire_type(), None));
    let mut defender = battle_entity(species("thorny", grass_type(), Some(poison_type())));
    let source = tackle_like_move("ember", fire_type(), Category::Physical, 100);
    defender.apply_status(halving_status("special_guard", Category::Special), 3, source);
    let dmg = BattlePokemon::calculate_damage_no_roll(
        &attacker,
        &defender,
        &StyleTriad::all(100),
        Category::Physical,
        &fire_type(),
        Style::Regular,
    );
    assert_eq!(dmg, 247);
}

#[test]
fn category_match_halves_damage() {
    let attacker = battle_entity(species("flamey", fire_type(), None));
    let mut defender = battle_entity(species("thorny", grass_type(), Some(poison_type())));
    let source = tackle_like_move("ember", fire_type(), Category::Physical, 100);
    defender.apply_status(halving_status("guard", Category::Physical), 3, source);
    let dmg = BattlePokemon::calculate_damage_no_roll(
        &attacker,
        &defender,
        &StyleTriad::all(100),
        Category::Physical,
        &fire_type(),
        Style::Regular,
    );
    // floor(99 * 0.5 * 2.0 * 1.25) = floor(123.75) = 123.
    assert_eq!(dmg, 123);
}

#[test]
fn wildcard_category_always_applies() {
    let attacker = battle_entity(species("flamey", fire_type(), None));
    let mut defender = battle_entity(species("thorny", grass_type(), Some(poison_type())));
    let source = tackle_like_move("ember", fire_type(), Category::Physical, 100);
    defender.apply_status(halving_status("allguard", Category::All), 3, source);
    let dmg = BattlePokemon::calculate_damage_no_roll(
        &attacker,
        &defender,
        &StyleTriad::all(100),
        Category::Physical,
        &fire_type(),
        Style::Regular,
    );
    assert_eq!(dmg, 123);
}

#[test]
fn damage_with_fixed_rolls() {
    let attacker = battle_entity(species("flamey", fire_type(), None));
    let defender = battle_entity(species("thorny", grass_type(), Some(poison_type())));
    let mv = tackle_like_move("ember", fire_type(), Category::Physical, 100);
    // no crit, lowest variance: 247 * 85 / 100 = 209.
    let low = BattlePokemon::calculate_damage_with_rolls(
        &attacker,
        &defender,
        &mv,
        Style::Regular,
        1,
        85,
    );
    assert_eq!(low, 209);
    // crit: floor(209 * 1.5) = 313.
    let crit = BattlePokemon::calculate_damage_with_rolls(
        &attacker,
        &defender,
        &mv,
        Style::Regular,
        0,
        85,
    );
    assert_eq!(crit, 313);
    // highest variance, no crit: 247 * 99 / 100 = 244.
    let high = BattlePokemon::calculate_damage_with_rolls(
        &attacker,
        &defender,
        &mv,
        Style::Regular,
        1,
        99,
    );
    assert_eq!(high, 244);
}

#[test]
fn rolled_damage_stays_in_the_possible_range() {
    let attacker = battle_entity(species("flamey", fire_type(), None));
    let defender = battle_entity(species("thorny", grass_type(), Some(poison_type())));
    let mv = tackle_like_move("ember", fire_type(), Category::Physical, 100);
    for _ in 0..50 {
        let dmg = BattlePokemon::calculate_damage(&attacker, &defender, &mv, Style::Regular);
        // variance 85..=99 of 247, optionally times 1.5:
        assert!(dmg >= 209);
        assert!(dmg <= 366);
    }
}

#[test]
fn immune_target_takes_zero_damage() {
    let normal = plain_type("normal");
    let attacker = battle_entity(species("plainy", plain_type("normal"), None));
    let defender = battle_entity(species("shade", ghost_like_type(), Some(grass_type())));
    let dmg = BattlePokemon::calculate_damage_no_roll(
        &attacker,
        &defender,
        &StyleTriad::all(100),
        Category::Physical,
        &normal,
        Style::Regular,
    );
    assert_eq!(dmg, 0);
}

#[test]
fn modify_stat_effects_multiply_and_floor() {
    let mut b = battle_entity(species("sample", fire_type(), None));
    let source = tackle_like_move("howl", fire_type(), Category::Status, 0);
    b.apply_status(
        StatusCondition {
            id: b"atk_up".to_vec(),
            volatility: Volatility::Volatile,
            immune_types: Vec::new(),
            effects: vec![Effect::ModifyStat { stat: Stat::Atk, multiplier: 150 }],
        },
        3,
        source,
    );
    let eff = b.effective_stats();
    // floor(340 * 1.5) = 510; other stats untouched.
    assert_eq!(eff.atk, 510);
    assert_eq!(eff.spe, 340);
    assert_eq!(eff.hp, 440);
}

#[test]
fn stacked_stat_effects_floor_once() {
    let mut b = battle_entity(species("sample", fire_type(), None));
    for (i, m) in [150u32, 50u32].iter().enumerate() {
        b.apply_status(
            StatusCondition {
                id: format!("mod{}", i).into_bytes(),
                volatility: Volatility::Volatile,
                immune_types: Vec::new(),
                effects: vec![Effect::ModifyStat { stat: Stat::Atk, multiplier: *m }],
            },
            3,
            tackle_like_move("howl", fire_type(), Category::Status, 0),
        );
    }
    // floor(340 * 1.5 * 0.5) = floor(255) = 255.
    assert_eq!(b.effective_stats().atk, 255);
}

#[test]
fn current_hp_subtracts_damage() {
    let b = battle_entity(species("sample", fire_type(), None));
    assert_eq!(b.current_hp(), 440);
}

#[test]
fn immune_status_leaves_state_unchanged() {
    // The condition's immune-type set holds the entity's own type, so the
    // application is a no-op on both status slots.
    let mut b = battle_entity(species("shade", ghost_like_type(), None));
    let source = tackle_like_move("hex", fire_type(), Category::Status, 0);
    b.apply_status(
        StatusCondition {
            id: b"shiver".to_vec(),
            volatility: Volatility::NonVolatile,
            immune_types: vec![ghost_like_type()],
            effects: Vec::new(),
        },
        3,
        source,
    );
    assert_eq!(b.status_conditions().len(), 0);
    assert_eq!(b.status_effects().len(), 0);
}

#[test]
fn non_volatile_slot_replaces_its_occupant() {
    let mut b = battle_entity(species("sample", fire_type(), None));
    let mk = |id: &str| StatusCondition {
        id: id.as_bytes().to_vec(),
        volatility: Volatility::NonVolatile,
        immune_types: Vec::new(),
        effects: Vec::new(),
    };
    b.apply_status(mk("sleepy"), 3, tackle_like_move("sing", fire_type(), Category::Status, 0));
    b.apply_status(mk("burned"), 5, tackle_like_move("scald", fire_type(), Category::Status, 0));
    let conds = b.status_conditions();
    assert_eq!(conds.len(), 1);
    assert_eq!(conds[0].condition.id, b"burned".to_vec());
    assert_eq!(conds[0].duration, 5);
}

#[test]
fn volatile_statuses_key_by_identifier() {
    let mut b = battle_entity(species("sample", fire_type(), None));
    let mk = |id: &str, dur: i32| {
        (
            StatusCondition {
                id: id.as_bytes().to_vec(),
                volatility: Volatility::Volatile,
                immune_types: Vec::new(),
                effects: Vec::new(),
            },
            dur,
        )
    };
    let (c1, d1) = mk("confused", 3);
    b.apply_status(c1, d1, tackle_like_move("swirl", fire_type(), Category::Status, 0));
    let (c2, d2) = mk("seeded", 4);
    b.apply_status(c2, d2, tackle_like_move("seed", fire_type(), Category::Status, 0));
    let (c3, d3) = mk("confused", 9);
    b.apply_status(c3, d3, tackle_like_move("swirl", fire_type(), Category::Status, 0));
    let conds = b.status_conditions();
    assert_eq!(conds.len(), 2);
    assert_eq!(conds[0].condition.id, b"confused".to_vec());
    assert_eq!(conds[0].duration, 9);
    assert_eq!(conds[1].condition.id, b"seeded".to_vec());
}

#[test]
fn tick_removes_exactly_at_zero() {
    let mut b = battle_entity(species("sample", fire_type(), None));
    b.apply_status(
        StatusCondition {
            id: b"sleepy".to_vec(),
            volatility: Volatility::NonVolatile,
            immune_types: Vec::new(),
            effects: Vec::new(),
        },
        2,
        tackle_like_move("sing", fire_type(), Category::Status, 0),
    );
    b.apply_status(
        StatusCondition {
            id: b"seeded".to_vec(),
            volatility: Volatility::Volatile,
            immune_types: Vec::new(),
            effects: Vec::new(),
        },
        1,
        tackle_like_move("seed", fire_type(), Category::Status, 0),
    );
    // First tick: the volatile status had duration 1 and transitions to 0,
    // so it is removed; the non-volatile one drops to 1 and stays.
    b.tick_statuses();
    let conds = b.status_conditions();
    assert_eq!(conds.len(), 1);
    assert_eq!(conds[0].condition.id, b"sleepy".to_vec());
    assert_eq!(conds[0].duration, 1);
    // Second tick: now the non-volatile duration transitions to 0.
    b.tick_statuses();
    assert_eq!(b.status_conditions().len(), 0);
}

#[test]
fn crit_stage_effects_shift_the_denominator() {
    // Crit stages >= 3 make the crit draw certain, so the crit multiplier
    // always applies.
    let mut attacker = battle_entity(species("flamey", fire_type(), None));
    attacker.apply_status(
        StatusCondition {
            id: b"focused".to_vec(),
            volatility: Volatility::Volatile,
            immune_types: Vec::new(),
            effects: vec![Effect::ModifyCritChance { stages: 3 }],
        },
        3,
        tackle_like_move("focus", fire_type(), Category::Status, 0),
    );
    let defender = battle_entity(species("thorny", grass_type(), Some(poison_type())));
    let mv = tackle_like_move("ember", fire_type(), Category::Physical, 100);
    for _ in 0..20 {
        let dmg = BattlePokemon::calculate_damage(&attacker, &defender, &mv, Style::Regular);
        // crit guaranteed: floor((247 * v / 100) * 1.5) for v in 85..=99.
        assert!(dmg >= 313);
        assert!(dmg <= 366);
    }
}

#[test]
fn effect_damge_multiplier_and_crit_bonus() {
    let e = Effect::DamageMultiplier {
        side: Side::Target,
        multiplier: 50,
        move_category: Category::Special,
    };
    assert_eq!(e.damge_multiplier(Category::Special, Side::Target), 50);
    assert_eq!(e.damge_multiplier(Category::Physical, Side::Target), 100);
    assert_eq!(e.damge_multiplier(Category::Special, Side::User), 100);
    let c = Effect::ModifyCritChance { stages: 2 };
    assert_eq!(c.crit_bonus(), 2);
    assert_eq!(e.crit_bonus(), 0);
}

#[test]
fn builders_and_moveset_dedup() {
    let p = Pokemon::new(species("sample", fire_type(), None))
        .nickname(Some(b"Sparky".to_vec()))
        .set_shiny(true)
        .level(63)
        .nature(Nature { increased: Stat::Atk, decreased: Stat::Def })
        .effort_levels(StatBlock::all(4));
    assert_eq!(p.name(), &b"Sparky".to_vec());
    assert!(p.is_shiny);
    assert_eq!(p.level, 63);
    let p = p
        .add_move(tackle_like_move("ember", fire_type(), Category::Physical, 40))
        .add_move(tackle_like_move("ember", fire_type(), Category::Physical, 40))
        .add_moves(vec![
            tackle_like_move("growl", fire_type(), Category::Status, 0),
            tackle_like_move("ember", fire_type(), Category::Physical, 40),
        ]);
    assert_eq!(p.moveset.len(), 2);
}

#[test]
fn name_falls_back_to_species_identifier() {
    let p = Pokemon::new(species("sample", fire_type(), None));
    assert_eq!(p.name(), &b"sample".to_vec());
}

#[test]
fn category_damaging_and_triads() {
    assert!(Category::Physical.is_damaging());
    assert!(Category::Special.is_damaging());
    assert!(!Category::Status.is_damaging());
    assert!(!Category::All.is_damaging());
    let t = StyleTriad::new(1, 2, 3);
    assert_eq!(t.get(Style::Regular), 1);
    assert_eq!(t.get(Style::Agile), 2);
    assert_eq!(t.get(Style::Strong), 3);
    let u: StyleTriad<i32> = StyleTriad::all(7);
    assert_eq!(u.get(Style::Strong), 7);
    let c = MoveEffectCondition::default();
    assert!(c.both_are_none());
}

#[test]
fn identifiable_yields_the_identifier() {
    let t = fire_type();
    assert_eq!(t.id(), b"fire".to_vec());
}

#[test]
fn multiplier_to_stat_reports_the_product() {
    let mut b = battle_entity(species("sample", fire_type(), None));
    b.apply_status(
        StatusCondition {
            id: b"atk_up".to_vec(),
            volatility: Volatility::Volatile,
            immune_types: Vec::new(),
            effects: vec![
                Effect::ModifyStat { stat: Stat::Atk, multiplier: 150 },
                Effect::ModifyStat { stat: Stat::Atk, multiplier: 50 },
            ],
        },
        3,
        tackle_like_move("howl", fire_type(), Category::Status, 0),
    );
    let (num, count) = b.multiplier_to_stat(Stat::Atk);
    assert_eq!(num, 7500);
    assert_eq!(count, 2);
    let (num_spe, count_spe) = b.multiplier_to_stat(Stat::Spe);
    assert_eq!(num_spe, 1);
    assert_eq!(count_spe, 0);
}

#[test]
fn zero_duration_status_is_dropped_on_the_next_tick() {
    let mut b = battle_entity(species("sample", fire_type(), None));
    b.apply_status(
        StatusCondition {
            id: b"flinch".to_vec(),
            volatility: Volatility::NonVolatile,
            immune_types: Vec::new(),
            effects: Vec::new(),
        },
        0,
        tackle_like_move("bite", fire_type(), Category::Physical, 60),
    );
    assert_eq!(b.status_conditions().len(), 1);
    b.tick_statuses();
    assert_eq!(b.status_conditions().len(), 0);
}
