use manabase::color::{Color, Colors};

fn subset(mask: u32) -> Vec<Color> {
    let all = [Color::White, Color::Blue, Color::Black, Color::Red, Color::Green];
    let mut v = Vec::new();
    for (i, c) in all.iter().enumerate() {
        if mask & (1 << i) != 0 {
            v.push(*c);
        }
    }
    v
}

#[test]
fn archetypes_of_all_subsets_are_distinct() {
    let mut seen: Vec<Colors> = Vec::new();
    for mask in 0u32..32 {
        let a = Colors::from_vec(subset(mask));
        assert!(!seen.contains(&a), "archetype repeated for mask {}", mask);
        seen.push(a);
    }
    assert_eq!(seen.len(), 32);
}

#[test]
fn archetype_is_order_insensitive() {
    let a = Colors::from_vec(vec![Color::White, Color::Blue]);
    let b = Colors::from_vec(vec![Color::Blue, Color::White]);
    assert_eq!(a, b);
    let c = Colors::from_vec(vec![Color::Green, Color::Red, Color::Black]);
    let d = Colors::from_vec(vec![Color::Black, Color::Green, Color::Red]);
    assert_eq!(c, d);
}

#[test]
fn round_trip_through_color_vec() {
    for mask in 0u32..32 {
        let a = Colors::from_vec(subset(mask));
        let back = Colors::from_vec(a.into_vec());
        assert_eq!(a, back, "round trip failed for mask {}", mask);
    }
}

#[test]
fn named_archetypes() {
    assert_eq!(Colors::from_vec(vec![Color::White, Color::Blue]).name(), "Azorius");
    assert_eq!(Colors::from_vec(vec![Color::Green, Color::White]).name(), "Selesnya");
    assert_eq!(
        Colors::from_vec(vec![Color::White, Color::Blue, Color::Black]).name(),
        "Esper"
    );
    assert_eq!(Colors::from_vec(vec![]).name(), "Colorless");
    assert_eq!(
        Colors::from_vec(vec![
            Color::White,
            Color::Blue,
            Color::Black,
            Color::Red,
            Color::Green
        ])
        .name(),
        "Domain"
    );
    assert_eq!(Colors::from_vec(vec![Color::Red]).name(), "Red");
}

#[test]
fn mana_symbols_of_archetypes() {
    assert_eq!(
        Colors::from_vec(vec![]).mana_symbols(),
        "<span class=\"mana sc\"></span>"
    );
    assert_eq!(
        Colors::from_vec(vec![Color::Red, Color::Green]).mana_symbols(),
        "<span class=\"mana sr\"></span><span class=\"mana sg\"></span>"
    );
    assert_eq!(Color::Blue.mana_symbol(), "<span class=\"mana su\"></span>");
}

#[test]
fn archetype_ranks_follow_display_order() {
    let colorless = Colors::from_vec(vec![]);
    let mono = Colors::from_vec(vec![Color::White]);
    let dual = Colors::from_vec(vec![Color::White, Color::Blue]);
    let tri = Colors::from_vec(vec![Color::White, Color::Blue, Color::Black]);
    let quad = Colors::from_vec(vec![Color::White, Color::Blue, Color::Black, Color::Red]);
    let domain = Colors::from_vec(vec![
        Color::White,
        Color::Blue,
        Color::Black,
        Color::Red,
        Color::Green,
    ]);
    assert!(colorless.rank() < mono.rank());
    assert!(mono.rank() < dual.rank());
    assert!(dual.rank() < tri.rank());
    assert!(tri.rank() < quad.rank());
    assert!(quad.rank() < domain.rank());
    assert_eq!(colorless.rank(), 0);
    assert_eq!(domain.rank(), 31);
}
