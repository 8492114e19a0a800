use battle_core::moves::Category;
use battle_core::moves::Move;
use battle_core::moves::StyleTriad;
use battle_core::parsing::deserialize_pokemon;
use battle_core::parsing::parse_effort_levels;
use battle_core::parsing::parse_u8_bytes;
use battle_core::parsing::pokemon_id_from;
use battle_core::parsing::stat_from_bytes;
use battle_core::parsing::NatureEntry;
use battle_core::pokemon::Species;
use battle_core::serialization::SerMove;
use battle_core::serialization::SerSpecies;
use battle_core::serialization::SerStatus;
use battle_core::stats::Nature;
use battle_core::stats::Stat;
use battle_core::stats::StatBlock;
use battle_core::status::Effect;
use battle_core::status::Volatility;
use battle_core::types::Type;
use battle_core::types::TypePair;

fn plain_type(id: &str) -> Type {
    Type {
        id: id.as_bytes().to_vec(),
        weakness_ids: Vec::new(),
        resistance_ids: Vec::new(),
        immunity_ids: Vec::new(),
    }
}

fn species_registry() -> Vec<Species> {
    vec![Species {
        id: b"bulbasaur".to_vec(),
        base_stats: StatBlock::all(100),
        types: TypePair(plain_type("grass"), Some(plain_type("poison"))),
    }]
}

fn move_registry() -> Vec<Move> {
    vec![Move {
        id: b"vine_whip".to_vec(),
        move_type: plain_type("grass"),
        category: Category::Physical,
        pp: 25,
        power: StyleTriad::all(45),
        accuracy: StyleTriad::all(100),
        user_action_time: StyleTriad::all(0),
        target_action_time: StyleTriad::all(0),
        crit_stage: StyleTriad::all(0),
        effects: Vec::new(),
    }]
}

fn nature_registry() -> Vec<NatureEntry> {
    vec![NatureEntry {
        name: b"bold".to_vec(),
        nature: Nature { increased: Stat::Def, decreased: Stat::Atk },
    }]
}

#[test]
fn parse_u8_values() {
    assert_eq!(parse_u8_bytes(&b"50".to_vec()), Some(50));
    assert_eq!(parse_u8_bytes(&b"+7".to_vec()), Some(7));
    assert_eq!(parse_u8_bytes(&b"255".to_vec()), Some(255));
    assert_eq!(parse_u8_bytes(&b"256".to_vec()), None);
    assert_eq!(parse_u8_bytes(&b"".to_vec()), None);
    assert_eq!(parse_u8_bytes(&b"5a".to_vec()), None);
    assert_eq!(parse_u8_bytes(&b"-3".to_vec()), None);
}

#[test]
fn species_identifier_normalisation() {
    assert_eq!(pokemon_id_from(&b"  Mr. Mime ".to_vec()), b"mr_mime".to_vec());
    assert_eq!(pokemon_id_from(&b"Porygon-Z".to_vec()), b"porygon-z".to_vec());
    assert_eq!(pokemon_id_from(&b"__oddish__".to_vec()), b"oddish".to_vec());
    assert_eq!(pokemon_id_from(&b"Bulbasaur".to_vec()), b"bulbasaur".to_vec());
}

#[test]
fn stat_names_parse_case_insensitively() {
    assert!(matches!(stat_from_bytes(&b"HP".to_vec()), Ok(Stat::Hp)));
    assert!(matches!(stat_from_bytes(&b"atk".to_vec()), Ok(Stat::Atk)));
    assert!(matches!(stat_from_bytes(&b"Def".to_vec()), Ok(Stat::Def)));
    assert!(matches!(stat_from_bytes(&b"spa".to_vec()), Ok(Stat::SpAtk)));
    assert!(matches!(stat_from_bytes(&b"SPD".to_vec()), Ok(Stat::SpDef)));
    assert!(matches!(stat_from_bytes(&b"spe".to_vec()), Ok(Stat::Spe)));
    assert!(stat_from_bytes(&b"luck".to_vec()).is_err());
    assert!(stat_from_bytes(&b"".to_vec()).is_err());
}

#[test]
fn stat_long_form_aliases_parse() {
    assert!(matches!(stat_from_bytes(&b"Attack".to_vec()), Ok(Stat::Atk)));
    assert!(matches!(stat_from_bytes(&b"defense".to_vec()), Ok(Stat::Def)));
    assert!(matches!(stat_from_bytes(&b"DEFENCE".to_vec()), Ok(Stat::Def)));
    assert!(matches!(stat_from_bytes(&b"spatk".to_vec()), Ok(Stat::SpAtk)));
    assert!(matches!(stat_from_bytes(&b"special attack".to_vec()), Ok(Stat::SpAtk)));
    assert!(matches!(stat_from_bytes(&b"Sp Attack".to_vec()), Ok(Stat::SpAtk)));
    assert!(matches!(stat_from_bytes(&b"spdef".to_vec()), Ok(Stat::SpDef)));
    assert!(matches!(stat_from_bytes(&b"special defense".to_vec()), Ok(Stat::SpDef)));
    assert!(matches!(stat_from_bytes(&b"sp defense".to_vec()), Ok(Stat::SpDef)));
    assert!(matches!(stat_from_bytes(&b"Special Defence".to_vec()), Ok(Stat::SpDef)));
    assert!(matches!(stat_from_bytes(&b"sp defence".to_vec()), Ok(Stat::SpDef)));
    assert!(matches!(stat_from_bytes(&b"Speed".to_vec()), Ok(Stat::Spe)));
    // an alias with extra text is not a name
    assert!(stat_from_bytes(&b"attack!".to_vec()).is_err());
}

#[test]
fn effort_levels_parse_with_defaults() {
    let sb = parse_effort_levels(&b"10 hp / 3 spe".to_vec()).unwrap();
    assert_eq!(sb.hp, 10);
    assert_eq!(sb.spe, 3);
    assert_eq!(sb.atk, 10);
    assert_eq!(sb.def, 10);
    // later entries for the same stat overwrite earlier ones
    let sb2 = parse_effort_levels(&b"1 atk / 9 atk".to_vec()).unwrap();
    assert_eq!(sb2.atk, 9);
}

#[test]
fn effort_levels_reject_unreadable_blocks() {
    assert!(parse_effort_levels(&b"banana".to_vec()).is_err());
    assert!(parse_effort_levels(&b"3 hp / banana".to_vec()).is_err());
    assert!(parse_effort_levels(&b"".to_vec()).is_err());
}

#[test]
fn team_sheet_round_trip() {
    let text = b"Bulby (Bulbasaur)\nLevel: 50\nShiny: yes\nBold Nature\nELs: 10 hp / 3 spe\n- Vine Whip\n".to_vec();
    let p = deserialize_pokemon(&text, &species_registry(), &move_registry(), &nature_registry())
        .unwrap();
    assert_eq!(p.nickname, Some(b"Bulby".to_vec()));
    assert_eq!(p.species.id, b"bulbasaur".to_vec());
    assert_eq!(p.level, 50);
    assert!(p.is_shiny);
    assert_eq!(p.nature.increased, Stat::Def);
    assert_eq!(p.nature.decreased, Stat::Atk);
    assert_eq!(p.effort_levels.hp, 10);
    assert_eq!(p.effort_levels.spe, 3);
    assert_eq!(p.effort_levels.atk, 10);
    assert_eq!(p.moveset.len(), 1);
    assert_eq!(p.moveset[0].id, b"vine_whip".to_vec());
}

#[test]
fn team_sheet_without_nickname() {
    let text = b"Bulbasaur\nShiny: no\n".to_vec();
    let p = deserialize_pokemon(&text, &species_registry(), &move_registry(), &nature_registry())
        .unwrap();
    assert_eq!(p.nickname, None);
    assert!(!p.is_shiny);
    assert_eq!(p.level, 100);
}

#[test]
fn team_sheet_failures() {
    let regs = (species_registry(), move_registry(), nature_registry());
    assert!(deserialize_pokemon(&b"".to_vec(), &regs.0, &regs.1, &regs.2).is_err());
    assert!(deserialize_pokemon(&b"Missingno\n".to_vec(), &regs.0, &regs.1, &regs.2).is_err());
    assert!(
        deserialize_pokemon(&b"Bulbasaur\nLevel: 900\n".to_vec(), &regs.0, &regs.1, &regs.2)
            .is_err()
    );
    assert!(
        deserialize_pokemon(&b"Bulbasaur\nTimid Nature\n".to_vec(), &regs.0, &regs.1, &regs.2)
            .is_err()
    );
    assert!(
        deserialize_pokemon(&b"Bulbasaur\n- Hyper Beam\n".to_vec(), &regs.0, &regs.1, &regs.2)
            .is_err()
    );
    // a '(' after the last ')' is malformed
    assert!(deserialize_pokemon(&b") Bulby (\n".to_vec(), &regs.0, &regs.1, &regs.2).is_err());
}

#[test]
fn unrecognised_lines_are_ignored() {
    let text = b"Bulbasaur\nsome note line\n".to_vec();
    let p = deserialize_pokemon(&text, &species_registry(), &move_registry(), &nature_registry())
        .unwrap();
    assert_eq!(p.level, 100);
}

#[test]
fn ser_move_resolves_its_type() {
    let types = vec![plain_type("grass"), plain_type("fire")];
    let sm = SerMove {
        id: b"vine_whip".to_vec(),
        move_type: b"grass".to_vec(),
        category: Category::Physical,
        pp: 25,
        power: StyleTriad::all(45),
        accuracy: StyleTriad::all(100),
        user_action_time: StyleTriad::all(0),
        target_action_time: StyleTriad::all(0),
        crit_stage: StyleTriad::all(0),
        effects: Vec::new(),
    };
    let m = sm.into_move(&types).unwrap();
    assert_eq!(m.move_type.id, b"grass".to_vec());
    let orphan = SerMove {
        id: b"hydro_pump".to_vec(),
        move_type: b"water".to_vec(),
        category: Category::Special,
        pp: 5,
        power: StyleTriad::all(110),
        accuracy: StyleTriad::all(80),
        user_action_time: StyleTriad::all(0),
        target_action_time: StyleTriad::all(0),
        crit_stage: StyleTriad::all(0),
        effects: Vec::new(),
    };
    assert!(orphan.into_move(&types).is_none());
}

#[test]
fn ser_species_resolves_both_types() {
    let types = vec![plain_type("grass"), plain_type("poison")];
    let ss = SerSpecies {
        id: b"bulbasaur".to_vec(),
        base_stats: StatBlock::all(100),
        types: (b"grass".to_vec(), Some(b"poison".to_vec())),
    };
    let sp = ss.into_species(&types).unwrap();
    assert_eq!(sp.types.0.id, b"grass".to_vec());
    assert_eq!(sp.types.1.as_ref().unwrap().id, b"poison".to_vec());
    // an unknown secondary is dropped; an unknown primary fails
    let ss2 = SerSpecies {
        id: b"oddish".to_vec(),
        base_stats: StatBlock::all(60),
        types: (b"grass".to_vec(), Some(b"shadow".to_vec())),
    };
    assert!(ss2.into_species(&types).unwrap().types.1.is_none());
    let ss3 = SerSpecies {
        id: b"missing".to_vec(),
        base_stats: StatBlock::all(60),
        types: (b"shadow".to_vec(), None),
    };
    assert!(ss3.into_species(&types).is_none());
}

#[test]
fn ser_status_resolves_immune_types() {
    let types = vec![plain_type("grass"), plain_type("steelish")];
    let st = SerStatus {
        id: b"poisoned".to_vec(),
        volatility: Volatility::NonVolatile,
        immune_type_ids: vec![b"steelish".to_vec()],
        effects: vec![Effect::TurnEndDamageFraction { fraction_denominator: 8 }],
    };
    let cond = st.into_status(&types).unwrap();
    assert_eq!(cond.immune_types.len(), 1);
    assert_eq!(cond.immune_types[0].id, b"steelish".to_vec());
    let st2 = SerStatus {
        id: b"frozen".to_vec(),
        volatility: Volatility::NonVolatile,
        immune_type_ids: vec![b"glacial".to_vec()],
        effects: Vec::new(),
    };
    assert!(st2.into_status(&types).is_none());
}

#[test]
fn team_sheet_with_carriage_returns() {
    let text = b"Bulbasaur\r\nLevel: 50\r\n".to_vec();
    let p = deserialize_pokemon(&text, &species_registry(), &move_registry(), &nature_registry())
        .unwrap();
    assert_eq!(p.level, 50);
}
