//! The color-identity model: a set of zero to five primitive colors is
//! represented by its canonical named archetype.  The mapping is total over
//! all 32 subsets and injective, so comparing archetypes is exactly comparing
//! color sets.

use vstd::prelude::*;

verus! {

/// One of the five primitive colors.
#[derive(Debug, Clone, Copy, PartialEq, Eq, Structural, Hash)]
pub enum Color {
    White,
    Blue,
    Black,
    Red,
    Green,
}

/// The ten named two-color archetypes.
#[derive(Debug, Clone, Copy, PartialEq, Eq, Structural, Hash)]
pub enum DualColor {
    Azorius,
    Dimir,
    Rakdos,
    Gruul,
    Selesnya,
    Orzhov,
    Boros,
    Izzet,
    Simic,
    Golgari,
}

/// The ten named three-color archetypes.
#[derive(Debug, Clone, Copy, PartialEq, Eq, Structural, Hash)]
pub enum TriColor {
    Bant,
    Esper,
    Grixis,
    Jund,
    Naya,
    Abzan,
    Jeskai,
    Sultai,
    Mardu,
    Temur,
}

/// The five named four-color archetypes.
#[derive(Debug, Clone, Copy, PartialEq, Eq, Structural, Hash)]
pub enum QuadColor {
    Artifice,
    Chaos,
    Aggression,
    Altruism,
    Growth,
}

/// A canonical, order-independent identity for a set of colors.
#[derive(Debug, Clone, Copy, PartialEq, Eq, Structural, Hash)]
pub enum Colors {
    Colorless,
    Mono(Color),
    Dual(DualColor),
    Tri(TriColor),
    Quad(QuadColor),
    Domain,
}

/// The archetype assigned to a color set, given as five membership flags
/// (white, blue, black, red, green).  Total over all 32 subsets.
pub open spec fn archetype_of(w: bool, u: bool, b: bool, r: bool, g: bool) -> Colors {
    match (w, u, b, r, g) {
        (false, false, false, false, false) => Colors::Colorless,
        (true, false, false, false, false) => Colors::Mono(Color::White),
        (false, true, false, false, false) => Colors::Mono(Color::Blue),
        (false, false, true, false, false) => Colors::Mono(Color::Black),
        (false, false, false, true, false) => Colors::Mono(Color::Red),
        (false, false, false, false, true) => Colors::Mono(Color::Green),
        (true, true, false, false, false) => Colors::Dual(DualColor::Azorius),
        (true, false, true, false, false) => Colors::Dual(DualColor::Orzhov),
        (true, false, false, true, false) => Colors::Dual(DualColor::Boros),
        (true, false, false, false, true) => Colors::Dual(DualColor::Selesnya),
        (false, true, true, false, false) => Colors::Dual(DualColor::Dimir),
        (false, true, false, true, false) => Colors::Dual(DualColor::Izzet),
        (false, true, false, false, true) => Colors::Dual(DualColor::Simic),
        (false, false, true, true, false) => Colors::Dual(DualColor::Rakdos),
        (false, false, true, false, true) => Colors::Dual(DualColor::Golgari),
        (false, false, false, true, true) => Colors::Dual(DualColor::Gruul),
        (true, true, true, false, false) => Colors::Tri(TriColor::Esper),
        (true, true, false, true, false) => Colors::Tri(TriColor::Jeskai),
        (true, true, false, false, true) => Colors::Tri(TriColor::Bant),
        (true, false, true, true, false) => Colors::Tri(TriColor::Mardu),
        (true, false, true, false, true) => Colors::Tri(TriColor::Abzan),
        (true, false, false, true, true) => Colors::Tri(TriColor::Naya),
        (false, true, true, true, false) => Colors::Tri(TriColor::Grixis),
        (false, true, true, false, true) => Colors::Tri(TriColor::Sultai),
        (false, true, false, true, true) => Colors::Tri(TriColor::Temur),
        (false, false, true, true, true) => Colors::Tri(TriColor::Jund),
        (true, true, true, true, false) => Colors::Quad(QuadColor::Artifice),
        (true, true, true, false, true) => Colors::Quad(QuadColor::Growth),
        (true, true, false, true, true) => Colors::Quad(QuadColor::Altruism),
        (true, false, true, true, true) => Colors::Quad(QuadColor::Aggression),
        (false, true, true, true, true) => Colors::Quad(QuadColor::Chaos),
        (true, true, true, true, true) => Colors::Domain,
    }
}

/// The membership flags (white, blue, black, red, green) of an archetype's
/// color set: the inverse of `archetype_of`.
pub open spec fn colors_of(c: Colors) -> (bool, bool, bool, bool, bool) {
    match c {
        Colors::Colorless => (false, false, false, false, false),
        Colors::Mono(m) => match m {
            Color::White => (true, false, false, false, false),
            Color::Blue => (false, true, false, false, false),
            Color::Black => (false, false, true, false, false),
            Color::Red => (false, false, false, true, false),
            Color::Green => (false, false, false, false, true),
        },
        Colors::Dual(d) => match d {
            DualColor::Azorius => (true, true, false, false, false),
            DualColor::Orzhov => (true, false, true, false, false),
            DualColor::Boros => (true, false, false, true, false),
            DualColor::Selesnya => (true, false, false, false, true),
            DualColor::Dimir => (false, true, true, false, false),
            DualColor::Izzet => (false, true, false, true, false),
            DualColor::Simic => (false, true, false, false, true),
            DualColor::Rakdos => (false, false, true, true, false),
            DualColor::Golgari => (false, false, true, false, true),
            DualColor::Gruul => (false, false, false, true, true),
        },
        Colors::Tri(t) => match t {
            TriColor::Esper => (true, true, true, false, false),
            TriColor::Jeskai => (true, true, false, true, false),
            TriColor::Bant => (true, true, false, false, true),
            TriColor::Mardu => (true, false, true, true, false),
            TriColor::Abzan => (true, false, true, false, true),
            TriColor::Naya => (true, false, false, true, true),
            TriColor::Grixis => (false, true, true, true, false),
            TriColor::Sultai => (false, true, true, false, true),
            TriColor::Temur => (false, true, false, true, true),
            TriColor::Jund => (false, false, true, true, true),
        },
        Colors::Quad(q) => match q {
            QuadColor::Artifice => (true, true, true, true, false),
            QuadColor::Growth => (true, true, true, false, true),
            QuadColor::Altruism => (true, true, false, true, true),
            QuadColor::Aggression => (true, false, true, true, true),
            QuadColor::Chaos => (false, true, true, true, true),
        },
        Colors::Domain => (true, true, true, true, true),
    }
}

/// The archetype of the set of colors occurring in a sequence.  Only
/// membership matters, so the result is invariant under reordering and
/// duplication of the input.
pub open spec fn archetype_spec(s: Seq<Color>) -> Colors {
    archetype_of(
        s.contains(Color::White),
        s.contains(Color::Blue),
        s.contains(Color::Black),
        s.contains(Color::Red),
        s.contains(Color::Green),
    )
}

/// No color occurs twice.
pub open spec fn distinct_colors(s: Seq<Color>) -> bool {
    forall|i: int, j: int| 0 <= i < j < s.len() ==> s[i] != s[j]
}

/// The exact color sequence that `into_vec` returns for an archetype.
pub open spec fn colors_seq(c: Colors) -> Seq<Color> {
    match c {
        Colors::Colorless => seq![],
        Colors::Mono(m) => seq![m],
        Colors::Dual(d) => match d {
            DualColor::Azorius => seq![Color::White, Color::Blue],
            DualColor::Dimir => seq![Color::Blue, Color::Black],
            DualColor::Rakdos => seq![Color::Black, Color::Red],
            DualColor::Gruul => seq![Color::Red, Color::Green],
            DualColor::Selesnya => seq![Color::Green, Color::White],
            DualColor::Orzhov => seq![Color::White, Color::Black],
            DualColor::Izzet => seq![Color::Blue, Color::Red],
            DualColor::Golgari => seq![Color::Black, Color::Green],
            DualColor::Boros => seq![Color::Red, Color::White],
            DualColor::Simic => seq![Color::Green, Color::Blue],
        },
        Colors::Tri(t) => match t {
            TriColor::Bant => seq![Color::Green, Color::White, Color::Blue],
            TriColor::Esper => seq![Color::White, Color::Blue, Color::Black],
            TriColor::Grixis => seq![Color::Blue, Color::Black, Color::Red],
            TriColor::Jund => seq![Color::Black, Color::Red, Color::Green],
            TriColor::Naya => seq![Color::Red, Color::Green, Color::White],
            TriColor::Abzan => seq![Color::White, Color::Black, Color::Green],
            TriColor::Jeskai => seq![Color::Blue, Color::Red, Color::White],
            TriColor::Sultai => seq![Color::Black, Color::Green, Color::Blue],
            TriColor::Mardu => seq![Color::Red, Color::White, Color::Black],
            TriColor::Temur => seq![Color::Green, Color::Blue, Color::Red],
        },
        Colors::Quad(q) => match q {
            QuadColor::Artifice => seq![Color::White, Color::Blue, Color::Black, Color::Red],
            QuadColor::Chaos => seq![Color::Blue, Color::Black, Color::Red, Color::Green],
            QuadColor::Aggression => seq![Color::Black, Color::Red, Color::Green, Color::White],
            QuadColor::Altruism => seq![Color::Red, Color::Green, Color::White, Color::Blue],
            QuadColor::Growth => seq![Color::Green, Color::White, Color::Blue, Color::Black],
        },
        Colors::Domain => seq![
            Color::White,
            Color::Blue,
            Color::Black,
            Color::Red,
            Color::Green,
        ],
    }
}

impl Color {
    /// The HTML snippet for this color's mana symbol.
    pub fn mana_symbol(self) -> (r: &'static str)
        ensures
            r@ == spec_mana_symbol(self),
    {
        match self {
            Color::White => "<span class=\"mana sw\"></span>",
            Color::Blue => "<span class=\"mana su\"></span>",
            Color::Black => "<span class=\"mana sb\"></span>",
            Color::Red => "<span class=\"mana sr\"></span>",
            Color::Green => "<span class=\"mana sg\"></span>",
        }
    }

    /// The display name of this color.
    pub fn name(self) -> (r: &'static str)
        ensures
            r@ == spec_color_name(self),
    {
        match self {
            Color::White => "White",
            Color::Blue => "Blue",
            Color::Black => "Black",
            Color::Red => "Red",
            Color::Green => "Green",
        }
    }
}

/// The mana-symbol snippet of one color.
pub open spec fn spec_mana_symbol(c: Color) -> Seq<char> {
    match c {
        Color::White => "<span class=\"mana sw\"></span>"@,
        Color::Blue => "<span class=\"mana su\"></span>"@,
        Color::Black => "<span class=\"mana sb\"></span>"@,
        Color::Red => "<span class=\"mana sr\"></span>"@,
        Color::Green => "<span class=\"mana sg\"></span>"@,
    }
}

/// The display name of one color.
pub open spec fn spec_color_name(c: Color) -> Seq<char> {
    match c {
        Color::White => "White"@,
        Color::Blue => "Blue"@,
        Color::Black => "Black"@,
        Color::Red => "Red"@,
        Color::Green => "Green"@,
    }
}

impl DualColor {
    /// The display name of this two-color archetype.
    pub fn name(self) -> (r: &'static str)
        ensures
            r@ == spec_dual_name(self),
    {
        match self {
            DualColor::Azorius => "Azorius",
            DualColor::Dimir => "Dimir",
            DualColor::Rakdos => "Rakdos",
            DualColor::Gruul => "Gruul",
            DualColor::Selesnya => "Selesnya",
            DualColor::Orzhov => "Orzhov",
            DualColor::Boros => "Boros",
            DualColor::Izzet => "Izzet",
            DualColor::Simic => "Simic",
            DualColor::Golgari => "Golgari",
        }
    }
}

/// The display name of one two-color archetype.
pub open spec fn spec_dual_name(c: DualColor) -> Seq<char> {
    match c {
        DualColor::Azorius => "Azorius"@,
        DualColor::Dimir => "Dimir"@,
        DualColor::Rakdos => "Rakdos"@,
        DualColor::Gruul => "Gruul"@,
        DualColor::Selesnya => "Selesnya"@,
        DualColor::Orzhov => "Orzhov"@,
        DualColor::Boros => "Boros"@,
        DualColor::Izzet => "Izzet"@,
        DualColor::Simic => "Simic"@,
        DualColor::Golgari => "Golgari"@,
    }
}

impl TriColor {
    /// The display name of this three-color archetype.
    pub fn name(self) -> (r: &'static str)
        ensures
            r@ == spec_tri_name(self),
    {
        match self {
            TriColor::Bant => "Bant",
            TriColor::Esper => "Esper",
            TriColor::Grixis => "Grixis",
            TriColor::Jund => "Jund",
            TriColor::Naya => "Naya",
            TriColor::Abzan => "Abzan",
            TriColor::Jeskai => "Jeskai",
            TriColor::Sultai => "Sultai",
            TriColor::Mardu => "Mardu",
            TriColor::Temur => "Temur",
        }
    }
}

/// The display name of one three-color archetype.
pub open spec fn spec_tri_name(c: TriColor) -> Seq<char> {
    match c {
        TriColor::Bant => "Bant"@,
        TriColor::Esper => "Esper"@,
        TriColor::Grixis => "Grixis"@,
        TriColor::Jund => "Jund"@,
        TriColor::Naya => "Naya"@,
        TriColor::Abzan => "Abzan"@,
        TriColor::Jeskai => "Jeskai"@,
        TriColor::Sultai => "Sultai"@,
        TriColor::Mardu => "Mardu"@,
        TriColor::Temur => "Temur"@,
    }
}

impl QuadColor {
    /// The display name of this four-color archetype.
    pub fn name(self) -> (r: &'static str)
        ensures
            r@ == spec_quad_name(self),
    {
        match self {
            QuadColor::Artifice => "Artifice",
            QuadColor::Chaos => "Chaos",
            QuadColor::Aggression => "Aggression",
            QuadColor::Altruism => "Altruism",
            QuadColor::Growth => "Growth",
        }
    }
}

/// The display name of one four-color archetype.
pub open spec fn spec_quad_name(c: QuadColor) -> Seq<char> {
    match c {
        QuadColor::Artifice => "Artifice"@,
        QuadColor::Chaos => "Chaos"@,
        QuadColor::Aggression => "Aggression"@,
        QuadColor::Altruism => "Altruism"@,
        QuadColor::Growth => "Growth"@,
    }
}

impl Colors {
    /// Derives the canonical archetype of a set of colors.  Only membership
    /// matters: any ordering of the same set yields the same archetype.
    pub fn from_vec(colors: Vec<Color>) -> (r: Colors)
        requires
            distinct_colors(colors@),
        ensures
            r == archetype_spec(colors@),
    {
        let mut w = false;
        let mut u = false;
        let mut b = false;
        let mut rr = false;
        let mut g = false;
        let mut i: usize = 0;
        while i < colors.len()
            invariant
                i <= colors@.len(),
                w == exists|k: int| 0 <= k < i && colors@[k] == Color::White,
                u == exists|k: int| 0 <= k < i && colors@[k] == Color::Blue,
                b == exists|k: int| 0 <= k < i && colors@[k] == Color::Black,
                rr == exists|k: int| 0 <= k < i && colors@[k] == Color::Red,
                g == exists|k: int| 0 <= k < i && colors@[k] == Color::Green,
            decreases colors@.len() - i,
        {
            let c = colors[i];
            w = w || c == Color::White;
            u = u || c == Color::Blue;
            b = b || c == Color::Black;
            rr = rr || c == Color::Red;
            g = g || c == Color::Green;
            i = i + 1;
        }
        match (w, u, b, rr, g) {
            (false, false, false, false, false) => Colors::Colorless,
            (true, false, false, false, false) => Colors::Mono(Color::White),
            (false, true, false, false, false) => Colors::Mono(Color::Blue),
            (false, false, true, false, false) => Colors::Mono(Color::Black),
            (false, false, false, true, false) => Colors::Mono(Color::Red),
            (false, false, false, false, true) => Colors::Mono(Color::Green),
            (true, true, false, false, false) => Colors::Dual(DualColor::Azorius),
            (true, false, true, false, false) => Colors::Dual(DualColor::Orzhov),
            (true, false, false, true, false) => Colors::Dual(DualColor::Boros),
            (true, false, false, false, true) => Colors::Dual(DualColor::Selesnya),
            (false, true, true, false, false) => Colors::Dual(DualColor::Dimir),
            (false, true, false, true, false) => Colors::Dual(DualColor::Izzet),
            (false, true, false, false, true) => Colors::Dual(DualColor::Simic),
            (false, false, true, true, false) => Colors::Dual(DualColor::Rakdos),
            (false, false, true, false, true) => Colors::Dual(DualColor::Golgari),
            (false, false, false, true, true) => Colors::Dual(DualColor::Gruul),
            (true, true, true, false, false) => Colors::Tri(TriColor::Esper),
            (true, true, false, true, false) => Colors::Tri(TriColor::Jeskai),
            (true, true, false, false, true) => Colors::Tri(TriColor::Bant),
            (true, false, true, true, false) => Colors::Tri(TriColor::Mardu),
            (true, false, true, false, true) => Colors::Tri(TriColor::Abzan),
            (true, false, false, true, true) => Colors::Tri(TriColor::Naya),
            (false, true, true, true, false) => Colors::Tri(TriColor::Grixis),
            (false, true, true, false, true) => Colors::Tri(TriColor::Sultai),
            (false, true, false, true, true) => Colors::Tri(TriColor::Temur),
            (false, false, true, true, true) => Colors::Tri(TriColor::Jund),
            (true, true, true, true, false) => Colors::Quad(QuadColor::Artifice),
            (true, true, true, false, true) => Colors::Quad(QuadColor::Growth),
            (true, true, false, true, true) => Colors::Quad(QuadColor::Altruism),
            (true, false, true, true, true) => Colors::Quad(QuadColor::Aggression),
            (false, true, true, true, true) => Colors::Quad(QuadColor::Chaos),
            (true, true, true, true, true) => Colors::Domain,
        }
    }

    /// The colors that make up this archetype, in the archetype's
    /// conventional display order.
    pub fn into_vec(self) -> (r: Vec<Color>)
        ensures
            r@ == colors_seq(self),
    {
        match self {
            Colors::Colorless => vec![],
            Colors::Mono(c) => vec![c],
            Colors::Dual(DualColor::Azorius) => vec![Color::White, Color::Blue],
            Colors::Dual(DualColor::Dimir) => vec![Color::Blue, Color::Black],
            Colors::Dual(DualColor::Rakdos) => vec![Color::Black, Color::Red],
            Colors::Dual(DualColor::Gruul) => vec![Color::Red, Color::Green],
            Colors::Dual(DualColor::Selesnya) => vec![Color::Green, Color::White],
            Colors::Dual(DualColor::Orzhov) => vec![Color::White, Color::Black],
            Colors::Dual(DualColor::Izzet) => vec![Color::Blue, Color::Red],
            Colors::Dual(DualColor::Golgari) => vec![Color::Black, Color::Green],
            Colors::Dual(DualColor::Boros) => vec![Color::Red, Color::White],
            Colors::Dual(DualColor::Simic) => vec![Color::Green, Color::Blue],
            Colors::Tri(TriColor::Bant) => vec![Color::Green, Color::White, Color::Blue],
            Colors::Tri(TriColor::Esper) => vec![Color::White, Color::Blue, Color::Black],
            Colors::Tri(TriColor::Grixis) => vec![Color::Blue, Color::Black, Color::Red],
            Colors::Tri(TriColor::Jund) => vec![Color::Black, Color::Red, Color::Green],
            Colors::Tri(TriColor::Naya) => vec![Color::Red, Color::Green, Color::White],
            Colors::Tri(TriColor::Abzan) => vec![Color::White, Color::Black, Color::Green],
            Colors::Tri(TriColor::Jeskai) => vec![Color::Blue, Color::Red, Color::White],
            Colors::Tri(TriColor::Sultai) => vec![Color::Black, Color::Green, Color::Blue],
            Colors::Tri(TriColor::Mardu) => vec![Color::Red, Color::White, Color::Black],
            Colors::Tri(TriColor::Temur) => vec![Color::Green, Color::Blue, Color::Red],
            Colors::Quad(QuadColor::Artifice) => vec![
                Color::White,
                Color::Blue,
                Color::Black,
                Color::Red,
            ],
            Colors::Quad(QuadColor::Chaos) => vec![
                Color::Blue,
                Color::Black,
                Color::Red,
                Color::Green,
            ],
            Colors::Quad(QuadColor::Aggression) => vec![
                Color::Black,
                Color::Red,
                Color::Green,
                Color::White,
            ],
            Colors::Quad(QuadColor::Altruism) => vec![
                Color::Red,
                Color::Green,
                Color::White,
                Color::Blue,
            ],
            Colors::Quad(QuadColor::Growth) => vec![
                Color::Green,
                Color::White,
                Color::Blue,
                Color::Black,
            ],
            Colors::Domain => vec![
                Color::White,
                Color::Blue,
                Color::Black,
                Color::Red,
                Color::Green,
            ],
        }
    }

    /// The HTML snippet showing this archetype's mana symbols: one symbol
    /// per member color, or the colorless symbol.
    pub fn mana_symbols(self) -> (r: String)
        ensures
            r@ == spec_colors_symbols(self),
    {
        match self {
            Colors::Colorless => "<span class=\"mana sc\"></span>".to_owned(),
            _ => {
                let colors = self.into_vec();
                let mut r = String::new();
                let mut i: usize = 0;
                while i < colors.len()
                    invariant
                        i <= colors@.len(),
                        colors@ == colors_seq(self),
                        r@ == concat_symbols(colors@.take(i as int)),
                    decreases colors@.len() - i,
                {
                    proof {
                        lemma_concat_symbols_push(colors@.take(i as int), colors@[i as int]);
                        assert(colors@.take(i as int).push(colors@[i as int]) =~= colors@.take(
                            i + 1,
                        ));
                    }
                    r.append(colors[i].mana_symbol());
                    i = i + 1;
                }
                proof {
                    assert(colors@.take(colors@.len() as int) =~= colors@);
                }
                r
            },
        }
    }

    /// The display name of this archetype.
    pub fn name(self) -> (r: &'static str)
        ensures
            r@ == spec_colors_name(self),
    {
        match self {
            Colors::Colorless => "Colorless",
            Colors::Mono(c) => c.name(),
            Colors::Dual(c) => c.name(),
            Colors::Tri(c) => c.name(),
            Colors::Quad(c) => c.name(),
            Colors::Domain => "Domain",
        }
    }

    /// A numeric rank realizing the canonical display ordering of
    /// archetypes: colorless, then mono colors in color order, then dual,
    /// tri and quad archetypes, then the five-color domain.
    pub fn rank(self) -> (r: u64)
        ensures
            r == spec_colors_rank(self),
    {
        match self {
            Colors::Colorless => 0,
            Colors::Mono(c) => 1 + match c {
                Color::White => 0u64,
                Color::Blue => 1,
                Color::Black => 2,
                Color::Red => 3,
                Color::Green => 4,
            },
            Colors::Dual(c) => 6 + match c {
                DualColor::Azorius => 0u64,
                DualColor::Dimir => 1,
                DualColor::Rakdos => 2,
                DualColor::Gruul => 3,
                DualColor::Selesnya => 4,
                DualColor::Orzhov => 5,
                DualColor::Boros => 6,
                DualColor::Izzet => 7,
                DualColor::Simic => 8,
                DualColor::Golgari => 9,
            },
            Colors::Tri(c) => 16 + match c {
                TriColor::Bant => 0u64,
                TriColor::Esper => 1,
                TriColor::Grixis => 2,
                TriColor::Jund => 3,
                TriColor::Naya => 4,
                TriColor::Abzan => 5,
                TriColor::Jeskai => 6,
                TriColor::Sultai => 7,
                TriColor::Mardu => 8,
                TriColor::Temur => 9,
            },
            Colors::Quad(c) => 26 + match c {
                QuadColor::Artifice => 0u64,
                QuadColor::Chaos => 1,
                QuadColor::Aggression => 2,
                QuadColor::Altruism => 3,
                QuadColor::Growth => 4,
            },
            Colors::Domain => 31,
        }
    }
}

/// The display name of one archetype.
pub open spec fn spec_colors_name(c: Colors) -> Seq<char> {
    match c {
        Colors::Colorless => "Colorless"@,
        Colors::Mono(m) => spec_color_name(m),
        Colors::Dual(d) => spec_dual_name(d),
        Colors::Tri(t) => spec_tri_name(t),
        Colors::Quad(q) => spec_quad_name(q),
        Colors::Domain => "Domain"@,
    }
}

/// The numeric rank of one archetype in the canonical display ordering.
pub open spec fn spec_colors_rank(c: Colors) -> int {
    match c {
        Colors::Colorless => 0,
        Colors::Mono(m) => 1 + match m {
            Color::White => 0int,
            Color::Blue => 1,
            Color::Black => 2,
            Color::Red => 3,
            Color::Green => 4,
        },
        Colors::Dual(d) => 6 + match d {
            DualColor::Azorius => 0int,
            DualColor::Dimir => 1,
            DualColor::Rakdos => 2,
            DualColor::Gruul => 3,
            DualColor::Selesnya => 4,
            DualColor::Orzhov => 5,
            DualColor::Boros => 6,
            DualColor::Izzet => 7,
            DualColor::Simic => 8,
            DualColor::Golgari => 9,
        },
        Colors::Tri(t) => 16 + match t {
            TriColor::Bant => 0int,
            TriColor::Esper => 1,
            TriColor::Grixis => 2,
            TriColor::Jund => 3,
            TriColor::Naya => 4,
            TriColor::Abzan => 5,
            TriColor::Jeskai => 6,
            TriColor::Sultai => 7,
            TriColor::Mardu => 8,
            TriColor::Temur => 9,
        },
        Colors::Quad(q) => 26 + match q {
            QuadColor::Artifice => 0int,
            QuadColor::Chaos => 1,
            QuadColor::Aggression => 2,
            QuadColor::Altruism => 3,
            QuadColor::Growth => 4,
        },
        Colors::Domain => 31,
    }
}

/// Law: the archetype is determined by color membership alone, so any two
/// sequences with the same color membership derive the same archetype,
/// whatever their order.
pub proof fn lemma_archetype_order_independent(s1: Seq<Color>, s2: Seq<Color>)
    requires
        forall|c: Color| s1.contains(c) <==> s2.contains(c),
    ensures
        archetype_spec(s1) == archetype_spec(s2),
{
    assert(s1.contains(Color::White) == s2.contains(Color::White));
    assert(s1.contains(Color::Blue) == s2.contains(Color::Blue));
    assert(s1.contains(Color::Black) == s2.contains(Color::Black));
    assert(s1.contains(Color::Red) == s2.contains(Color::Red));
    assert(s1.contains(Color::Green) == s2.contains(Color::Green));
}

/// Law: `colors_of` inverts `archetype_of`, so the mapping from color sets
/// to archetypes is injective: each of the 32 subsets of the five colors
/// has its own archetype.
pub proof fn lemma_archetype_injective(w: bool, u: bool, b: bool, r: bool, g: bool)
    ensures
        colors_of(archetype_of(w, u, b, r, g)) == (w, u, b, r, g),
{
}

/// Law: `archetype_of` inverts `colors_of`: rebuilding an archetype from
/// its own color membership yields that archetype again.
pub proof fn lemma_archetype_of_colors_of(c: Colors)
    ensures
        ({
            let (w, u, b, r, g) = colors_of(c);
            archetype_of(w, u, b, r, g) == c
        }),
{
}

/// Law: the round trip through the explicit color sequence.  For every
/// archetype, the sequence `into_vec` returns has distinct colors, and
/// deriving an archetype from it yields the original archetype back.
pub proof fn lemma_colors_roundtrip(c: Colors)
    ensures
        distinct_colors(colors_seq(c)),
        archetype_spec(colors_seq(c)) == c,
{
    let s = colors_seq(c);
    let (w, u, b, r, g) = colors_of(c);
    assert(s.contains(Color::White) == w && s.contains(Color::Blue) == u && s.contains(
        Color::Black,
    ) == b && s.contains(Color::Red) == r && s.contains(Color::Green) == g) by {
        lemma_colors_seq_membership(c);
    }
    lemma_archetype_of_colors_of(c);
}

/// The membership facts of each archetype's explicit color sequence.
proof fn lemma_colors_seq_membership(c: Colors)
    ensures
        ({
            let (w, u, b, r, g) = colors_of(c);
            let s = colors_seq(c);
            &&& s.contains(Color::White) == w
            &&& s.contains(Color::Blue) == u
            &&& s.contains(Color::Black) == b
            &&& s.contains(Color::Red) == r
            &&& s.contains(Color::Green) == g
        }),
{
    let s = colors_seq(c);
    assert forall|x: Color| s.contains(x) implies colors_seq_has(c, x) by {
        let k = choose|k: int| 0 <= k < s.len() && s[k] == x;
        assert(s[k] == x);
    }
    assert forall|x: Color| colors_seq_has(c, x) implies s.contains(x) by {
        lemma_colors_seq_witness(c, x);
    }
}

/// Whether a color appears in an archetype's membership flags.
spec fn colors_seq_has(c: Colors, x: Color) -> bool {
    let (w, u, b, r, g) = colors_of(c);
    match x {
        Color::White => w,
        Color::Blue => u,
        Color::Black => b,
        Color::Red => r,
        Color::Green => g,
    }
}

/// A member color of an archetype occurs at some index of its sequence.
proof fn lemma_colors_seq_witness(c: Colors, x: Color)
    requires
        colors_seq_has(c, x),
    ensures
        colors_seq(c).contains(x),
{
    let s = colors_seq(c);
    assert(exists|k: int| 0 <= k < s.len() && s[k] == x) by {
        if s.len() > 0 && s[0] == x {
            assert(0 <= 0 < s.len() && s[0] == x);
        } else if s.len() > 1 && s[1] == x {
            assert(s[1] == x);
        } else if s.len() > 2 && s[2] == x {
            assert(s[2] == x);
        } else if s.len() > 3 && s[3] == x {
            assert(s[3] == x);
        } else if s.len() > 4 && s[4] == x {
            assert(s[4] == x);
        }
    }
}


/// The concatenated mana-symbol snippets of a sequence of colors.
pub open spec fn concat_symbols(s: Seq<Color>) -> Seq<char>
    decreases s.len(),
{
    if s.len() == 0 {
        seq![]
    } else {
        spec_mana_symbol(s[0]) + concat_symbols(s.drop_first())
    }
}

/// Concatenating one more color's symbols appends its snippet.
proof fn lemma_concat_symbols_push(s: Seq<Color>, c: Color)
    ensures
        concat_symbols(s.push(c)) == concat_symbols(s) + spec_mana_symbol(c),
    decreases s.len(),
{
    if s.len() == 0 {
        assert(s.push(c)[0] == c);
        assert(s.push(c).drop_first() =~= Seq::<Color>::empty());
        assert(concat_symbols(s.push(c)) == spec_mana_symbol(c) + concat_symbols(
            s.push(c).drop_first(),
        ));
        assert(concat_symbols(Seq::<Color>::empty()) == Seq::<char>::empty());
        assert(spec_mana_symbol(c) + Seq::<char>::empty() =~= spec_mana_symbol(c));
        assert(concat_symbols(s) == Seq::<char>::empty());
        assert(Seq::<char>::empty() + spec_mana_symbol(c) =~= spec_mana_symbol(c));
    } else {
        assert(s.push(c).drop_first() =~= s.drop_first().push(c));
        lemma_concat_symbols_push(s.drop_first(), c);
        assert(s.push(c)[0] == s[0]);
        assert(concat_symbols(s.push(c)) == spec_mana_symbol(s[0]) + (concat_symbols(
            s.drop_first(),
        ) + spec_mana_symbol(c)));
        assert(spec_mana_symbol(s[0]) + (concat_symbols(s.drop_first()) + spec_mana_symbol(c))
            =~= (spec_mana_symbol(s[0]) + concat_symbols(s.drop_first())) + spec_mana_symbol(c));
    }
}

/// The mana-symbol snippet of one archetype.
pub open spec fn spec_colors_symbols(c: Colors) -> Seq<char> {
    match c {
        Colors::Colorless => "<span class=\"mana sc\"></span>"@,
        _ => concat_symbols(colors_seq(c)),
    }
}


/// Whether no color occurs twice in the vector.
pub fn colors_distinct(v: &Vec<Color>) -> (r: bool)
    ensures
        r == distinct_colors(v@),
{
    let mut i: usize = 0;
    while i < v.len()
        invariant
            i <= v@.len(),
            forall|p: int, q: int| 0 <= p < q < i ==> v@[p] != v@[q],
        decreases v@.len() - i,
    {
        let mut j: usize = 0;
        while j < i
            invariant
                j <= i,
                i < v@.len(),
                forall|q: int| 0 <= q < j ==> v@[q] != v@[i as int],
            decreases i - j,
        {
            if v[j] == v[i] {
                return false;
            }
            j = j + 1;
        }
        i = i + 1;
    }
    true
}

} // verus!
