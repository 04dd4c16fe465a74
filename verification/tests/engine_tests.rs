use manabase::card::{CardType, CategoryOverrides, TaggedCardDb};
use manabase::color::Color;
use manabase::pattern::CompiledRegex;
use manabase::scryfall::{Card, CardFace, CardList, Cmc, Format, Legality, SetType};
use manabase::tags::{CardTags, Category, TagConfig, TagDb, TagIndex, TagKind};

fn empty_config() -> TagConfig {
    TagConfig {
        type_regex: None,
        name_regex: None,
        text_regex: None,
        names: None,
        color_identity: None,
        color_identity_len: None,
        mana: None,
        cmc: None,
        card_face: None,
        category: None,
        alt_names: Vec::new(),
        subtags: Vec::new(),
        kind: TagKind::Other,
        format: None,
        legality: None,
        description: None,
    }
}

fn plain_card(name: &str, type_line: &str, text: &str) -> Card {
    Card {
        id: format!("id-{}", name),
        scryfall_uri: String::new(),
        card_faces: Vec::new(),
        cmc: Cmc::whole(1),
        color_identity: vec![Color::Green],
        name: name.to_string(),
        type_line: Some(type_line.to_string()),
        oracle_text: Some(text.to_string()),
        image_uri: Some(format!("img-{}", name)),
        set_type: SetType::Other,
        legalities: Vec::new(),
    }
}

fn no_curated() -> CardTags {
    CardTags(Vec::new())
}

fn no_overrides() -> CategoryOverrides {
    CategoryOverrides(Vec::new())
}

fn land_category() -> Category {
    Category {
        name: "Lands".to_string(),
        type_filter: Some(CompiledRegex::compile(r"\bLand\b").unwrap()),
    }
}

#[test]
fn card_types_from_type_line() {
    let types = CardType::from_str("Legendary Artifact Creature — Golem");
    assert_eq!(types, vec![CardType::Artifact, CardType::Creature]);
    let types = CardType::from_str("Land");
    assert_eq!(types, vec![CardType::Land]);
    let none = CardType::from_str("Conspiracy");
    assert!(none.is_empty());
}

#[test]
fn type_display_helpers() {
    assert_eq!(CardType::Land.base_uri(), "lands.html");
    assert_eq!(CardType::Sorcery.base_uri(), "sorceries.html");
    assert_eq!(CardType::Creature.filter_class(), "mtg-filter-creature");
    assert!(CardType::Instant.show_only_filter_query().starts_with("show=instant"));
    assert_eq!(SetType::Funny.filter_class(), "mtg-filter-silver-border");
    assert_eq!(SetType::Other.filter_class(), "");
}

#[test]
fn mana_dork_scenario_lands_in_category_and_bucket() {
    // Tag "Ramp — Mana Dork" with {category=Dorks, type_regex=\bCreature\b};
    // category Dorks has no mandatory type filter.
    let cats = vec![Category { name: "Dorks".to_string(), type_filter: None }];
    let mut dork = empty_config();
    dork.category = Some("Dorks".to_string());
    dork.type_regex = Some(r"\bCreature\b".to_string());
    let mut ramp = empty_config();
    ramp.category = Some("Dorks".to_string());
    ramp.text_regex = Some(r"Add \{G\}".to_string());
    ramp.subtags = vec!["Ramp — Mana Dork".to_string()];
    let source = vec![
        ("Ramp — Mana Dork".to_string(), dork),
        ("Ramp".to_string(), ramp),
    ];
    let index = TagIndex::from_config(source, &cats).expect("config should compile");
    let card = plain_card("Llanowar Elves", "Creature — Elf Druid", "Add {G}.");
    let list = CardList(vec![card]);
    let db = TaggedCardDb::new(&no_curated(), &index, &cats, &no_overrides(), &list);

    assert_eq!(db.cards.len(), 1);
    let dork_handle = index.get_index("Ramp — Mana Dork").unwrap();
    let ramp_handle = index.get_index("Ramp").unwrap();
    assert!(db.cards[0].tags.contains(&dork_handle));
    assert!(db.cards[0].tags.contains(&ramp_handle));
    // Placed in category Dorks.
    assert_eq!(db.cards[0].categories, vec![0]);
    assert!(db.category_index[0].contains(&0));
    // And in the Ramp tag's mana-dork bucket.
    let partition = db.subtag_partition(&index, ramp_handle);
    assert_eq!(partition.subtags, vec![dork_handle]);
    assert_eq!(partition.buckets.len(), 1);
    assert!(partition.buckets[0].contains(&0));
    assert!(partition.untagged.is_empty());
}

#[test]
fn implicit_type_filter_retains_untagged_lands() {
    // No tag condition matches the card; the Lands category's implicit
    // filter alone retains it.
    let cats = vec![land_category()];
    let mut unrelated = empty_config();
    unrelated.text_regex = Some("Storm".to_string());
    let source = vec![("Storm".to_string(), unrelated)];
    let index = TagIndex::from_config(source, &cats).expect("config should compile");
    let card = plain_card("Forest", "Basic Land — Forest", "");
    let list = CardList(vec![card]);
    let db = TaggedCardDb::new(&no_curated(), &index, &cats, &no_overrides(), &list);
    assert_eq!(db.cards.len(), 1);
    assert!(db.cards[0].tags.is_empty());
    assert_eq!(db.cards[0].categories, vec![0]);
    assert!(db.category_index[0].contains(&0));
}

#[test]
fn card_with_no_category_is_excluded_everywhere() {
    let cats = vec![land_category()];
    let mut tag = empty_config();
    tag.type_regex = Some("Sorcery".to_string());
    let source = vec![("Sorceries".to_string(), tag)];
    let index = TagIndex::from_config(source, &cats).expect("config should compile");
    // The card matches the tag, but the tag's definition names no category
    // and the card is no land, so no category is earned: it is dropped.
    let card = plain_card("Sleep", "Sorcery", "Tap all creatures.");
    let list = CardList(vec![card]);
    let db = TaggedCardDb::new(&no_curated(), &index, &cats, &no_overrides(), &list);
    assert!(db.cards.is_empty());
    for members in &db.tag_index {
        assert!(members.is_empty());
    }
    for members in &db.category_index {
        assert!(members.is_empty());
    }
    for tags in &db.type_tag_index {
        assert!(tags.is_empty());
    }
}

#[test]
fn category_overrides_are_additive() {
    let cats = vec![Category { name: "Staples".to_string(), type_filter: None }];
    let mut unrelated = empty_config();
    unrelated.text_regex = Some("Storm".to_string());
    let source = vec![("Storm".to_string(), unrelated)];
    let index = TagIndex::from_config(source, &cats).expect("config should compile");
    let card = plain_card("Sol Ring", "Artifact", "Add {C}{C}.");
    let list = CardList(vec![card]);
    let overrides = CategoryOverrides(vec![(
        "Sol Ring".to_string(),
        vec!["Staples".to_string()],
    )]);
    let db = TaggedCardDb::new(&no_curated(), &index, &cats, &overrides, &list);
    assert_eq!(db.cards.len(), 1);
    assert_eq!(db.cards[0].categories, vec![0]);
}

#[test]
fn curated_tags_are_added_by_name() {
    let cats = vec![land_category()];
    let curated = CardTags(vec![(
        "Forest".to_string(),
        vec!["Evergreen".to_string()],
    )]);
    let mut index = TagIndex::new();
    index.merge_tags(&curated);
    let handle = index.get_index("Evergreen").expect("bare tag should exist");
    let card = plain_card("Forest", "Basic Land — Forest", "");
    let list = CardList(vec![card]);
    let db = TaggedCardDb::new(&curated, &index, &cats, &no_overrides(), &list);
    assert_eq!(db.cards.len(), 1);
    assert!(db.cards[0].tags.contains(&handle));
    assert!(db.tag_index[handle].contains(&0));
}

#[test]
fn curated_list_reports_its_cards_and_tags() {
    let curated = CardTags(vec![
        ("Forest".to_string(), vec!["Evergreen".to_string(), "Basic".to_string()]),
        ("Island".to_string(), vec!["Basic".to_string()]),
    ]);
    let names: Vec<String> = curated.cards().into_iter().cloned().collect();
    assert_eq!(names, vec!["Forest", "Island"]);
    assert_eq!(
        curated.get_tags("Forest").map(|v| v.clone()),
        Some(vec!["Evergreen".to_string(), "Basic".to_string()])
    );
    assert!(curated.get_tags("Mountain").is_none());
    let mut tags = curated.tags();
    tags.sort();
    assert_eq!(tags, vec!["Basic", "Evergreen"]);
}

#[test]
fn two_faced_card_images() {
    let cats = vec![land_category()];
    let index = TagIndex::from_config(Vec::new(), &cats).expect("empty config compiles");
    let two_sided = Card {
        id: "id-mdfc".to_string(),
        scryfall_uri: String::new(),
        card_faces: vec![
            CardFace {
                name: "Front".to_string(),
                type_line: Some("Creature".to_string()),
                oracle_text: None,
                image_uri: Some("front.jpg".to_string()),
            },
            CardFace {
                name: "Back".to_string(),
                type_line: Some("Land".to_string()),
                oracle_text: None,
                image_uri: Some("back.jpg".to_string()),
            },
        ],
        cmc: Cmc::whole(2),
        color_identity: vec![],
        name: "Front // Back".to_string(),
        type_line: None,
        oracle_text: None,
        image_uri: None,
        set_type: SetType::Other,
        legalities: Vec::new(),
    };
    let single = plain_card("Forest", "Basic Land — Forest", "");
    let list = CardList(vec![two_sided, single]);
    let db = TaggedCardDb::new(&no_curated(), &index, &cats, &no_overrides(), &list);
    assert_eq!(db.cards.len(), 2);
    // The combined type line includes the faces, so the back face's Land
    // type retains the two-sided card under the Lands category.
    assert_eq!(db.cards[0].front_image_uri, "front.jpg");
    assert_eq!(db.cards[0].back_image_uri.as_deref(), Some("back.jpg"));
    assert!(db.cards[0].types.contains(&CardType::Land));
    assert!(db.cards[0].types.contains(&CardType::Creature));
    // A single-faced card with a card-level image has no back image.
    assert_eq!(db.cards[1].front_image_uri, "img-Forest");
    assert!(db.cards[1].back_image_uri.is_none());
}

#[test]
fn all_cards_list_is_sorted_by_name() {
    let cats = vec![land_category()];
    let index = TagIndex::from_config(Vec::new(), &cats).expect("empty config compiles");
    let c1 = plain_card("Wastes", "Basic Land", "");
    let c2 = plain_card("Forest", "Basic Land — Forest", "");
    let c3 = plain_card("Island", "Basic Land — Island", "");
    let list = CardList(vec![c1, c2, c3]);
    let db = TaggedCardDb::new(&no_curated(), &index, &cats, &no_overrides(), &list);
    let sorted = db.sorted_cards();
    let names: Vec<&str> = sorted.iter().map(|&j| db.cards[j].name.as_str()).collect();
    assert_eq!(names, vec!["Forest", "Island", "Wastes"]);
    let of_type = db.cards_of_type_sorted(CardType::Land);
    assert_eq!(of_type.len(), 3);
}

#[test]
fn type_tag_index_links_types_to_tags() {
    let cats = vec![land_category()];
    let mut tag = empty_config();
    tag.category = Some("Lands".to_string());
    let source = vec![("All Lands".to_string(), tag)];
    let index = TagIndex::from_config(source, &cats).expect("config should compile");
    let handle = index.get_index("All Lands").unwrap();
    let land = plain_card("Forest", "Basic Land — Forest", "");
    let list = CardList(vec![land]);
    let db = TaggedCardDb::new(&no_curated(), &index, &cats, &no_overrides(), &list);
    assert!(db.type_has_cards_of_tag(CardType::Land, handle));
    assert!(!db.type_has_cards_of_tag(CardType::Creature, handle));
    assert_eq!(db.cards[0].type_filter_classes(), "mtg-filter-land");
}

#[test]
fn kind_index_groups_and_sorts_tags() {
    let cats: Vec<Category> = Vec::new();
    let mut blue = empty_config();
    blue.color_identity = Some(vec![Color::Blue]);
    blue.kind = TagKind::ColorIdentity;
    let mut white = empty_config();
    white.color_identity = Some(vec![Color::White]);
    white.kind = TagKind::ColorIdentity;
    let mut colorless = empty_config();
    colorless.color_identity = Some(vec![]);
    colorless.kind = TagKind::ColorIdentity;
    let mut cheap = empty_config();
    cheap.cmc = Some(Cmc::whole(1));
    cheap.kind = TagKind::Cost;
    let mut free = empty_config();
    free.cmc = Some(Cmc::whole(0));
    free.kind = TagKind::Cost;
    let mut beta = empty_config();
    beta.text_regex = Some("b".to_string());
    let mut alpha = empty_config();
    alpha.text_regex = Some("a".to_string());
    let source = vec![
        ("Blue".to_string(), blue),
        ("White".to_string(), white),
        ("Colorless".to_string(), colorless),
        ("One Drops".to_string(), cheap),
        ("Free Spells".to_string(), free),
        ("Beta".to_string(), beta),
        ("Alpha".to_string(), alpha),
    ];
    let index = TagIndex::from_config(source, &cats).expect("config should compile");
    let tagdb = TagDb::new(&index);
    let lists = tagdb.kind_index();
    assert_eq!(lists.len(), 6);
    let color_rank = TagKind::ColorIdentity.rank();
    let color_names: Vec<&str> =
        lists[color_rank].iter().map(|&h| index.entries[h].name.as_str()).collect();
    assert_eq!(color_names, vec!["Colorless", "White", "Blue"]);
    let cost_rank = TagKind::Cost.rank();
    let cost_names: Vec<&str> =
        lists[cost_rank].iter().map(|&h| index.entries[h].name.as_str()).collect();
    assert_eq!(cost_names, vec!["Free Spells", "One Drops"]);
    let other_rank = TagKind::Other.rank();
    let other_names: Vec<&str> =
        lists[other_rank].iter().map(|&h| index.entries[h].name.as_str()).collect();
    assert_eq!(other_names, vec!["Alpha", "Beta"]);
}

#[test]
fn subtag_partition_sends_cards_to_every_matching_bucket() {
    let cats = vec![Category { name: "Ramp".to_string(), type_filter: None }];
    let mut parent = empty_config();
    parent.category = Some("Ramp".to_string());
    parent.text_regex = Some("Add".to_string());
    parent.subtags = vec!["Dorks".to_string(), "Rocks".to_string(), "Ghost".to_string()];
    let mut dorks = empty_config();
    dorks.category = Some("Ramp".to_string());
    dorks.type_regex = Some("Creature".to_string());
    let mut rocks = empty_config();
    rocks.category = Some("Ramp".to_string());
    rocks.type_regex = Some("Artifact".to_string());
    let source = vec![
        ("Ramp".to_string(), parent),
        ("Dorks".to_string(), dorks),
        ("Rocks".to_string(), rocks),
    ];
    let index = TagIndex::from_config(source, &cats).expect("config should compile");
    // An artifact creature that makes mana matches parent and both subtags;
    // an enchantment that makes mana matches only the parent.
    let both = plain_card("Arcane Golem", "Artifact Creature — Golem", "Add {C}.");
    let neither = plain_card("Fertile Ground", "Enchantment — Aura", "Add {G}.");
    let list = CardList(vec![both, neither]);
    let db = TaggedCardDb::new(&no_curated(), &index, &cats, &no_overrides(), &list);
    let ramp_handle = index.get_index("Ramp").unwrap();
    let partition = db.subtag_partition(&index, ramp_handle);
    // The unresolved subtag name is silently absent.
    assert_eq!(partition.subtags.len(), 2);
    assert!(partition.buckets[0].contains(&0));
    assert!(partition.buckets[1].contains(&0));
    assert!(!partition.buckets[0].contains(&1));
    assert_eq!(partition.untagged, vec![1]);
}

#[test]
fn format_and_legality_names() {
    assert_eq!(Format::Commander.name(), "Commander");
    assert_eq!(Legality::NotLegal.name(), "Not Legal");
    assert_eq!(Legality::Restricted.name(), "Restricted");
}

#[test]
fn card_tags_sort_by_display_name() {
    // Two format tags whose raw names order opposite to their display
    // names: the per-card tag list must come out in display order.
    let cats = vec![Category { name: "All".to_string(), type_filter: None }];
    let mut aaa = empty_config();
    aaa.category = Some("All".to_string());
    aaa.format = Some(Format::Pauper);
    aaa.legality = Some(Legality::Legal);
    aaa.kind = TagKind::Format;
    let mut zzz = empty_config();
    zzz.category = Some("All".to_string());
    zzz.format = Some(Format::Modern);
    zzz.legality = Some(Legality::Banned);
    zzz.kind = TagKind::Format;
    let source = vec![
        ("aaa".to_string(), aaa),
        ("zzz".to_string(), zzz),
    ];
    let index = TagIndex::from_config(source, &cats).expect("config should compile");
    let mut card = plain_card("Gush", "Instant", "Return an island.");
    card.legalities = vec![
        (Format::Pauper, Legality::Legal),
        (Format::Modern, Legality::Banned),
    ];
    let list = CardList(vec![card]);
    let db = TaggedCardDb::new(&no_curated(), &index, &cats, &no_overrides(), &list);
    assert_eq!(db.cards.len(), 1);
    let aaa_handle = index.get_index("aaa").unwrap();
    let zzz_handle = index.get_index("zzz").unwrap();
    assert_eq!(index.entries[aaa_handle].name(), "Legal in Pauper");
    assert_eq!(index.entries[zzz_handle].name(), "Banned in Modern");
    // "Banned in Modern" sorts before "Legal in Pauper".
    assert_eq!(db.cards[0].tags(&index), vec![zzz_handle, aaa_handle]);
}
