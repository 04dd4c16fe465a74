use manabase::color::Color;
use manabase::pattern::CompiledRegex;
use manabase::scryfall::{Card, CardFace, Cmc, Format, Legality, SetType};
use manabase::tags::{Category, ConfigError, ConfigField, TagConfig, TagData, TagIndex, TagKind};

fn empty_config() -> TagConfig {
    TagConfig {
        type_regex: None,
        name_regex: None,
        text_regex: None,
        names: None,
        color_identity: None,
        color_identity_len: None,
        mana: None,
        cmc: None,
        card_face: None,
        category: None,
        alt_names: Vec::new(),
        subtags: Vec::new(),
        kind: TagKind::Other,
        format: None,
        legality: None,
        description: None,
    }
}

fn plain_card(name: &str, type_line: &str, text: &str) -> Card {
    Card {
        id: format!("id-{}", name),
        scryfall_uri: String::new(),
        card_faces: Vec::new(),
        cmc: Cmc::whole(1),
        color_identity: vec![Color::Green],
        name: name.to_string(),
        type_line: Some(type_line.to_string()),
        oracle_text: Some(text.to_string()),
        image_uri: None,
        set_type: SetType::Other,
        legalities: Vec::new(),
    }
}

fn no_categories() -> Vec<Category> {
    Vec::new()
}

#[test]
fn tag_with_two_conditions_matches_either() {
    let cats = no_categories();
    let mut cfg1 = empty_config();
    cfg1.type_regex = Some(r"\bCreature\b".to_string());
    let mut cfg2 = empty_config();
    cfg2.text_regex = Some(r"Add \{G\}".to_string());
    let source = vec![
        ("Ramp".to_string(), cfg1),
        ("Ramp".to_string(), cfg2),
    ];
    let index = TagIndex::from_config(source, &cats).expect("config should compile");
    let tag = index.get("Ramp").expect("tag should exist");
    let by_type = plain_card("Elf", "Creature — Elf Druid", "Deathtouch");
    let by_text = plain_card("Fertile Ground", "Enchantment — Aura", "Add {G}.");
    let neither = plain_card("Shock", "Instant", "Deal 2 damage.");
    assert!(tag.is_match(&by_type, &cats));
    assert!(tag.is_match(&by_text, &cats));
    assert!(!tag.is_match(&neither, &cats));
}

#[test]
fn merge_unions_alt_names_and_subtags_without_duplicates() {
    let cats = no_categories();
    let mut cfg1 = empty_config();
    cfg1.type_regex = Some("Creature".to_string());
    cfg1.alt_names = vec!["dorks".to_string(), "mana dorks".to_string()];
    cfg1.subtags = vec!["Sub A".to_string()];
    let mut cfg2 = empty_config();
    cfg2.text_regex = Some("Add".to_string());
    cfg2.alt_names = vec!["mana dorks".to_string(), "elves".to_string()];
    cfg2.subtags = vec!["Sub A".to_string(), "Sub B".to_string()];
    let source = vec![
        ("Ramp".to_string(), cfg1),
        ("Ramp".to_string(), cfg2),
    ];
    let index = TagIndex::from_config(source, &cats).expect("config should compile");
    let tag = index.get("Ramp").expect("tag should exist");
    let mut alts = tag.alt_names.clone();
    alts.sort();
    assert_eq!(alts, vec!["dorks", "elves", "mana dorks"]);
    let mut subs = tag.subtags.clone();
    subs.sort();
    assert_eq!(subs, vec!["Sub A", "Sub B"]);
    assert_eq!(tag.conditions.len(), 2);
}

#[test]
fn merge_keeps_first_kind() {
    let cats = no_categories();
    let mut cfg1 = empty_config();
    cfg1.type_regex = Some("Land".to_string());
    cfg1.kind = TagKind::TypeLine;
    let mut cfg2 = empty_config();
    cfg2.text_regex = Some("Add".to_string());
    cfg2.kind = TagKind::Other;
    let source = vec![
        ("Lands".to_string(), cfg1),
        ("Lands".to_string(), cfg2),
    ];
    let index = TagIndex::from_config(source, &cats).expect("config should compile");
    let tag = index.get("Lands").expect("tag should exist");
    assert_eq!(tag.kind, TagKind::TypeLine);
}

#[test]
fn absent_face_index_never_matches() {
    let cats = no_categories();
    let mut cfg = empty_config();
    cfg.card_face = Some(1);
    cfg.type_regex = Some("Creature".to_string());
    let source = vec![("Backside".to_string(), cfg)];
    let index = TagIndex::from_config(source, &cats).expect("config should compile");
    let tag = index.get("Backside").expect("tag should exist");
    // A single-faced creature: the face-targeted condition must not match,
    // even though the top-level type line would.
    let card = plain_card("Bear", "Creature — Bear", "");
    assert!(!tag.is_match(&card, &cats));
}

#[test]
fn face_selector_targets_the_right_face() {
    let cats = no_categories();
    let card = Card {
        id: "id-mdfc".to_string(),
        scryfall_uri: String::new(),
        card_faces: vec![
            CardFace {
                name: "FaceA".to_string(),
                type_line: Some("Creature".to_string()),
                oracle_text: None,
                image_uri: None,
            },
            CardFace {
                name: "FaceB".to_string(),
                type_line: Some("Land".to_string()),
                oracle_text: None,
                image_uri: None,
            },
        ],
        cmc: Cmc::whole(2),
        color_identity: vec![],
        name: "FaceA // FaceB".to_string(),
        type_line: Some("Creature // Land".to_string()),
        oracle_text: None,
        image_uri: None,
        set_type: SetType::Other,
        legalities: Vec::new(),
    };
    let mut back = empty_config();
    back.card_face = Some(1);
    back.type_regex = Some(r"\bLand\b".to_string());
    let mut front = empty_config();
    front.card_face = Some(0);
    front.type_regex = Some(r"\bLand\b".to_string());
    let source = vec![
        ("Back Lands".to_string(), back),
        ("Front Lands".to_string(), front),
    ];
    let index = TagIndex::from_config(source, &cats).expect("config should compile");
    assert!(index.get("Back Lands").unwrap().is_match(&card, &cats));
    assert!(!index.get("Front Lands").unwrap().is_match(&card, &cats));
}

#[test]
fn cmc_condition_is_exact() {
    let cats = no_categories();
    let mut cfg = empty_config();
    cfg.cmc = Some(Cmc::whole(0));
    cfg.kind = TagKind::Cost;
    let source = vec![("CMC 0".to_string(), cfg)];
    let index = TagIndex::from_config(source, &cats).expect("config should compile");
    let tag = index.get("CMC 0").expect("tag should exist");
    let mut zero = plain_card("Ornithopter", "Artifact Creature — Thopter", "Flying");
    zero.cmc = Cmc::whole(0);
    let mut one = plain_card("Sol Talisman", "Artifact", "");
    one.cmc = Cmc::whole(1);
    assert!(tag.is_match(&zero, &cats));
    assert!(!tag.is_match(&one, &cats));
}

#[test]
fn color_identity_condition_is_exact_set_equality() {
    let cats = no_categories();
    let mut cfg = empty_config();
    cfg.color_identity = Some(vec![Color::White, Color::Blue]);
    let source = vec![("Azorius".to_string(), cfg)];
    let index = TagIndex::from_config(source, &cats).expect("config should compile");
    let tag = index.get("Azorius").expect("tag should exist");
    let mut exact = plain_card("Azorius Signet", "Artifact", "");
    exact.color_identity = vec![Color::Blue, Color::White];
    let mut subset = plain_card("Plains Walker", "Creature", "");
    subset.color_identity = vec![Color::White];
    let mut superset = plain_card("Esper Thing", "Artifact", "");
    superset.color_identity = vec![Color::White, Color::Blue, Color::Black];
    assert!(tag.is_match(&exact, &cats));
    assert!(!tag.is_match(&subset, &cats));
    assert!(!tag.is_match(&superset, &cats));
}

#[test]
fn name_list_and_name_regex_conditions() {
    let cats = no_categories();
    let mut listed = empty_config();
    listed.names = Some(vec!["Llanowar Elves".to_string()]);
    let mut pattern = empty_config();
    pattern.name_regex = Some("^Llanowar".to_string());
    let source = vec![
        ("Listed".to_string(), listed),
        ("Pattern".to_string(), pattern),
    ];
    let index = TagIndex::from_config(source, &cats).expect("config should compile");
    let elves = plain_card("Llanowar Elves", "Creature — Elf Druid", "Add {G}.");
    let other = plain_card("Elvish Mystic", "Creature — Elf Druid", "Add {G}.");
    assert!(index.get("Listed").unwrap().is_match(&elves, &cats));
    assert!(!index.get("Listed").unwrap().is_match(&other, &cats));
    assert!(index.get("Pattern").unwrap().is_match(&elves, &cats));
    assert!(!index.get("Pattern").unwrap().is_match(&other, &cats));
}

#[test]
fn format_legality_condition() {
    let cats = no_categories();
    let mut cfg = empty_config();
    cfg.format = Some(Format::Pauper);
    cfg.legality = Some(Legality::Legal);
    cfg.kind = TagKind::Format;
    let source = vec![("Pauper".to_string(), cfg)];
    let index = TagIndex::from_config(source, &cats).expect("config should compile");
    let tag = index.get("Pauper").expect("tag should exist");
    let mut legal = plain_card("Counterspell", "Instant", "Counter target spell.");
    legal.legalities = vec![(Format::Pauper, Legality::Legal), (Format::Modern, Legality::Legal)];
    let mut banned = plain_card("High Tide", "Instant", "");
    banned.legalities = vec![(Format::Pauper, Legality::Banned)];
    let missing = plain_card("Unknown", "Instant", "");
    assert!(tag.is_match(&legal, &cats));
    assert!(!tag.is_match(&banned, &cats));
    assert!(!tag.is_match(&missing, &cats));
}

#[test]
fn conditions_are_anded_within_one_definition() {
    let cats = no_categories();
    let mut cfg = empty_config();
    cfg.type_regex = Some("Creature".to_string());
    cfg.text_regex = Some(r"Add \{G\}".to_string());
    let source = vec![("Dork".to_string(), cfg)];
    let index = TagIndex::from_config(source, &cats).expect("config should compile");
    let tag = index.get("Dork").expect("tag should exist");
    let both = plain_card("Llanowar Elves", "Creature — Elf Druid", "Add {G}.");
    let only_type = plain_card("Bear", "Creature — Bear", "");
    let only_text = plain_card("Fertile Ground", "Enchantment — Aura", "Add {G}.");
    assert!(tag.is_match(&both, &cats));
    assert!(!tag.is_match(&only_type, &cats));
    assert!(!tag.is_match(&only_text, &cats));
}

#[test]
fn missing_optional_fields_fail_the_check_without_error() {
    let cats = no_categories();
    let mut cfg = empty_config();
    cfg.text_regex = Some("Add".to_string());
    let source = vec![("Text".to_string(), cfg)];
    let index = TagIndex::from_config(source, &cats).expect("config should compile");
    let tag = index.get("Text").expect("tag should exist");
    let mut no_text = plain_card("Blank", "Artifact", "");
    no_text.oracle_text = None;
    assert!(!tag.is_match(&no_text, &cats));
}

#[test]
fn invalid_regex_is_fatal_and_names_tag_and_field() {
    let cats = no_categories();
    let mut cfg = empty_config();
    cfg.type_regex = Some("(".to_string());
    let source = vec![("Broken".to_string(), cfg)];
    match TagIndex::from_config(source, &cats) {
        Err(ConfigError::InvalidRegex { tag, field }) => {
            assert_eq!(tag, "Broken");
            assert_eq!(field, ConfigField::TypeRegex);
        }
        other => panic!("expected an invalid-regex error, got {:?}", other.map(|_| ())),
    }
}

#[test]
fn invalid_text_regex_reports_its_field() {
    let cats = no_categories();
    let mut cfg = empty_config();
    cfg.text_regex = Some("[".to_string());
    let source = vec![("Broken".to_string(), cfg)];
    match TagIndex::from_config(source, &cats) {
        Err(ConfigError::InvalidRegex { tag, field }) => {
            assert_eq!(tag, "Broken");
            assert_eq!(field, ConfigField::TextRegex);
        }
        other => panic!("expected an invalid-regex error, got {:?}", other.map(|_| ())),
    }
}

#[test]
fn unknown_category_is_fatal() {
    let cats = no_categories();
    let mut cfg = empty_config();
    cfg.type_regex = Some("Creature".to_string());
    cfg.category = Some("Dorks".to_string());
    let source = vec![("Ramp".to_string(), cfg)];
    match TagIndex::from_config(source, &cats) {
        Err(ConfigError::UnknownCategory { tag }) => assert_eq!(tag, "Ramp"),
        other => panic!("expected an unknown-category error, got {:?}", other.map(|_| ())),
    }
}

#[test]
fn vacuous_condition_is_fatal() {
    let cats = no_categories();
    let cfg = empty_config();
    let source = vec![("Everything".to_string(), cfg)];
    match TagIndex::from_config(source, &cats) {
        Err(ConfigError::EmptyCondition { tag }) => assert_eq!(tag, "Everything"),
        other => panic!("expected an empty-condition error, got {:?}", other.map(|_| ())),
    }
}

#[test]
fn vacuous_condition_is_allowed_under_a_filtered_category() {
    let cats = vec![Category {
        name: "Lands".to_string(),
        type_filter: Some(CompiledRegex::compile(r"\bLand\b").unwrap()),
    }];
    let mut cfg = empty_config();
    cfg.category = Some("Lands".to_string());
    let source = vec![("All Lands".to_string(), cfg)];
    let index = TagIndex::from_config(source, &cats).expect("implicit filter carries the rule");
    let tag = index.get("All Lands").expect("tag should exist");
    let land = plain_card("Forest", "Basic Land — Forest", "");
    let spell = plain_card("Wasteland Scorpion", "Creature — Scorpion", "");
    assert!(tag.is_match(&land, &cats));
    assert!(!tag.is_match(&spell, &cats));
}

#[test]
fn duplicate_colors_are_fatal() {
    let cats = no_categories();
    let mut cfg = empty_config();
    cfg.color_identity = Some(vec![Color::Red, Color::Red]);
    let source = vec![("Doubled".to_string(), cfg)];
    match TagIndex::from_config(source, &cats) {
        Err(ConfigError::InvalidColors { tag, field }) => {
            assert_eq!(tag, "Doubled");
            assert_eq!(field, ConfigField::ColorIdentity);
        }
        other => panic!("expected an invalid-colors error, got {:?}", other.map(|_| ())),
    }
}

#[test]
fn compiled_regex_matches_with_word_boundaries_and_dotall() {
    let land = CompiledRegex::compile(r"\bLand\b").unwrap();
    assert!(land.is_match("Basic Land — Forest"));
    assert!(!land.is_match("Wasteland"));
    assert!(CompiledRegex::compile("(").is_err());
    // The dot crosses line breaks: multi-line rules text can be spanned.
    let spanning = CompiledRegex::compile("Add.*mana").unwrap();
    assert!(spanning.is_match("Add {G}.\nSpend this mana on creatures."));
}

#[test]
fn canonical_name_replaces_special_characters() {
    let cats = no_categories();
    let mut cfg = empty_config();
    cfg.text_regex = Some("Add".to_string());
    let source = vec![("Ramp — Mana Dork".to_string(), cfg)];
    let index = TagIndex::from_config(source, &cats).expect("config should compile");
    let tag = index.get("Ramp — Mana Dork").expect("tag should exist");
    assert_eq!(tag.canonical_name(), "Ramp___Mana_Dork");
}

#[test]
fn alt_names_join_for_display() {
    let mut tag = TagData::new("Plain");
    assert!(!tag.has_alt_names());
    tag.alt_names = vec!["one".to_string(), "two".to_string()];
    assert!(tag.has_alt_names());
    assert_eq!(tag.alt_names_string(), "one, two");
}

#[test]
fn cmc_fixed_point_truncation() {
    assert_eq!(Cmc::whole(3).truncated(), 3);
    assert_eq!(Cmc::from_halves(7).truncated(), 3);
    assert_eq!(Cmc::from_halves(1).truncated(), 0);
    assert_eq!(Cmc::whole(0), Cmc::from_halves(0));
    assert_ne!(Cmc::whole(1), Cmc::from_halves(1));
}

#[test]
fn kind_badges_and_names() {
    assert_eq!(TagKind::ColorIdentity.class(), "badge-warning");
    assert_eq!(TagKind::Other.class(), "badge-dark");
    assert_eq!(TagKind::Cost.display_name(), "Converted Mana Cost");
    assert_eq!(TagKind::default(), TagKind::Other);
}

#[test]
fn display_names_compose_cost_and_format() {
    let cats = no_categories();
    let mut cost = empty_config();
    cost.cmc = Some(Cmc::whole(2));
    cost.kind = TagKind::Cost;
    let mut fmt_cfg = empty_config();
    fmt_cfg.format = Some(Format::Pauper);
    fmt_cfg.legality = Some(Legality::Legal);
    fmt_cfg.kind = TagKind::Format;
    let source = vec![
        ("Expensive".to_string(), cost),
        ("Pauper".to_string(), fmt_cfg),
    ];
    let index = TagIndex::from_config(source, &cats).expect("config should compile");
    assert_eq!(index.get("Expensive").unwrap().name(), "CMC: 2");
    assert_eq!(index.get("Pauper").unwrap().name(), "Legal in Pauper");
    let mut plain = TagData::new("Plain");
    assert_eq!(plain.name(), "Plain");
    // A non-cost kind shows its configured name even when a cost is set.
    plain.cmc = Some(Cmc::from_halves(25));
    assert_eq!(plain.name(), "Plain");
}

#[test]
fn cost_display_name_truncates_and_defaults() {
    let mut tag = TagData::new("Odd Costs");
    tag.kind = TagKind::Cost;
    assert_eq!(tag.name(), "CMC: 0");
    tag.cmc = Some(Cmc::from_halves(25));
    assert_eq!(tag.name(), "CMC: 12");
}

#[test]
fn cmc_symbol_snippet() {
    let mut tag = TagData::new("Rocks");
    assert_eq!(tag.cmc_symbol(), "");
    tag.cmc = Some(Cmc::whole(12));
    assert_eq!(tag.cmc_symbol(), "<span class=\"mana s12\"></span>");
}
