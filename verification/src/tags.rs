//! The tag rule compiler and the match-condition evaluator.  A tag carries
//! one or more match conditions; a condition matches a card when every one
//! of its populated fields accepts the card (AND semantics), and a tag
//! matches when any of its conditions does (OR semantics).  Definitions of
//! one tag name from several configuration sources merge into one tag with
//! the conditions of all of them.

use crate::color::{archetype_spec, distinct_colors, Color, Colors};
use crate::pattern::{regex_match, regex_valid, CompiledRegex};
use crate::scryfall::{Card, Cmc, Format, Legality};
use crate::text::{
    canonical_slug, contains_string, contains_string_spec, distinct_strings, extend_unique,
    slug_of, sort_pairs_by_name, sort_pairs_by_num, str_eq,
};
use vstd::prelude::*;

verus! {

/// The display-grouping classification of a tag, orthogonal to the
/// categories its conditions assign.
#[derive(Debug, Clone, Copy, PartialEq, Eq, Structural, Hash)]
pub enum TagKind {
    ColorIdentity,
    ManaPool,
    Cost,
    TypeLine,
    Format,
    Other,
}

impl TagKind {
    /// The badge class used when displaying tags of this kind.
    pub fn class(self) -> (r: &'static str)
        ensures
            r@ == spec_kind_class(self),
    {
        match self {
            TagKind::Other => "badge-dark",
            TagKind::ColorIdentity => "badge-warning",
            TagKind::ManaPool => "badge-success",
            TagKind::TypeLine => "badge-info",
            TagKind::Cost => "badge-secondary",
            TagKind::Format => "badge-danger",
        }
    }

    /// The display name of this kind.
    pub fn display_name(self) -> (r: &'static str)
        ensures
            r@ == spec_kind_display_name(self),
    {
        match self {
            TagKind::ColorIdentity => "Color Identity",
            TagKind::Cost => "Converted Mana Cost",
            TagKind::ManaPool => "Mana",
            TagKind::TypeLine => "Type",
            TagKind::Format => "Format Legality",
            TagKind::Other => "Other",
        }
    }

    /// The position of this kind in the fixed display order of kinds.
    pub fn rank(self) -> (r: usize)
        ensures
            r == spec_kind_rank(self),
    {
        match self {
            TagKind::ColorIdentity => 0,
            TagKind::ManaPool => 1,
            TagKind::Cost => 2,
            TagKind::TypeLine => 3,
            TagKind::Format => 4,
            TagKind::Other => 5,
        }
    }
}

impl Default for TagKind {
    /// A tag without a configured kind is grouped under `Other`.
    fn default() -> (r: TagKind)
        ensures
            r == TagKind::Other,
    {
        TagKind::Other
    }
}

/// The badge class of one kind.
pub open spec fn spec_kind_class(k: TagKind) -> Seq<char> {
    match k {
        TagKind::Other => "badge-dark"@,
        TagKind::ColorIdentity => "badge-warning"@,
        TagKind::ManaPool => "badge-success"@,
        TagKind::TypeLine => "badge-info"@,
        TagKind::Cost => "badge-secondary"@,
        TagKind::Format => "badge-danger"@,
    }
}

/// The display name of one kind.
pub open spec fn spec_kind_display_name(k: TagKind) -> Seq<char> {
    match k {
        TagKind::ColorIdentity => "Color Identity"@,
        TagKind::Cost => "Converted Mana Cost"@,
        TagKind::ManaPool => "Mana"@,
        TagKind::TypeLine => "Type"@,
        TagKind::Format => "Format Legality"@,
        TagKind::Other => "Other"@,
    }
}

/// The position of one kind in the fixed display order.
pub open spec fn spec_kind_rank(k: TagKind) -> int {
    match k {
        TagKind::ColorIdentity => 0,
        TagKind::ManaPool => 1,
        TagKind::Cost => 2,
        TagKind::TypeLine => 3,
        TagKind::Format => 4,
        TagKind::Other => 5,
    }
}

/// A coarse-grained card grouping.  A category may carry a mandatory
/// type-line filter that is implicitly required of every condition assigned
/// to it; a category without one imposes nothing of its own.
pub struct Category {
    /// The category's display name, unique within the category list.
    pub name: String,
    /// The mandatory type-line filter, if the category has one.
    pub type_filter: Option<CompiledRegex>,
}

/// One match condition: a single predicate over a card, true when every
/// populated field accepts the card.
pub struct Condition {
    /// Exact converted-mana-cost equality.
    pub cmc: Option<Cmc>,
    /// Exact count of distinct colors in the card's color identity.
    pub color_identity_len: Option<usize>,
    /// Exact color-identity set equality, as the canonical archetype.
    pub color_identity: Option<Colors>,
    /// An explicit allow-list of card names.
    pub names: Option<Vec<String>>,
    /// When set, the textual checks below target this face of the card; a
    /// card without that face never matches.
    pub card_face: Option<usize>,
    /// The category this condition assigns, as an index into the category
    /// list.
    pub category: Option<usize>,
    /// A pattern the targeted type line must match.
    pub type_regex: Option<CompiledRegex>,
    /// A pattern the targeted name must match.
    pub name_regex: Option<CompiledRegex>,
    /// A pattern the targeted rules text must match.
    pub text_regex: Option<CompiledRegex>,
    /// A format together with the legality state the card must have in it.
    pub format: Option<(Format, Legality)>,
}

/// The view of an optional string.
pub open spec fn view_opt(o: Option<String>) -> Option<Seq<char>> {
    match o {
        Option::Some(s) => Option::Some(s@),
        Option::None => Option::None,
    }
}

/// Whether the condition's face selector, if any, names a face the card
/// has.
pub open spec fn face_ok(c: Condition, card: Card) -> bool {
    match c.card_face {
        Option::Some(i) => i < card.card_faces@.len(),
        Option::None => true,
    }
}

/// The name targeted by the condition's textual checks.
pub open spec fn target_name(c: Condition, card: Card) -> Seq<char> {
    match c.card_face {
        Option::Some(i) => card.card_faces@[i as int].name@,
        Option::None => card.name@,
    }
}

/// The type line targeted by the condition's textual checks.
pub open spec fn target_type_line(c: Condition, card: Card) -> Option<Seq<char>> {
    match c.card_face {
        Option::Some(i) => view_opt(card.card_faces@[i as int].type_line),
        Option::None => view_opt(card.type_line),
    }
}

/// The rules text targeted by the condition's textual checks.
pub open spec fn target_text(c: Condition, card: Card) -> Option<Seq<char>> {
    match c.card_face {
        Option::Some(i) => view_opt(card.card_faces@[i as int].oracle_text),
        Option::None => view_opt(card.oracle_text),
    }
}

/// Whether the category named by the condition accepts the card: its
/// mandatory type-line filter, if it has one, must match the targeted type
/// line.  A condition naming a category outside the list matches nothing.
pub open spec fn category_filter_ok(c: Condition, card: Card, cats: Seq<Category>) -> bool {
    match c.category {
        Option::Some(ci) => ci < cats.len() && match cats[ci as int].type_filter {
            Option::Some(re) => target_type_line(c, card) matches Option::Some(t) && regex_match(
                re.pattern_view(),
                t,
            ),
            Option::None => true,
        },
        Option::None => true,
    }
}

/// Whether one condition matches a card: every populated field accepts it.
/// A check against an absent optional card field fails; it never errors.
pub open spec fn cond_matches(c: Condition, card: Card, cats: Seq<Category>) -> bool {
    &&& (c.cmc matches Option::Some(x) ==> card.cmc == x)
    &&& (c.color_identity_len matches Option::Some(n) ==> card.color_identity@.len() == n)
    &&& (c.color_identity matches Option::Some(cs) ==> archetype_spec(card.color_identity@) == cs)
    &&& (c.names matches Option::Some(ns) ==> contains_string_spec(ns@, card.name@))
    &&& face_ok(c, card)
    &&& category_filter_ok(c, card, cats)
    &&& (c.type_regex matches Option::Some(re) ==> target_type_line(c, card) matches Option::Some(
        t,
    ) && regex_match(re.pattern_view(), t))
    &&& (c.name_regex matches Option::Some(re) ==> regex_match(
        re.pattern_view(),
        target_name(c, card),
    ))
    &&& (c.text_regex matches Option::Some(re) ==> target_text(c, card) matches Option::Some(t)
        && regex_match(re.pattern_view(), t))
    &&& (c.format matches Option::Some(fl) ==> crate::scryfall::lookup_legality(
        card.legalities@,
        fl.0,
    ) == Option::Some(fl.1))
}

impl Condition {
    /// Evaluates this condition against a card, in the fixed check order,
    /// short-circuiting on the first failing check.
    pub fn matches(&self, card: &Card, cats: &Vec<Category>) -> (r: bool)
        requires
            card.wf(),
        ensures
            r == cond_matches(*self, *card, cats@),
    {
        if let Some(x) = self.cmc {
            if !(card.cmc == x) {
                return false;
            }
        }
        if let Some(n) = self.color_identity_len {
            if card.color_identity.len() != n {
                return false;
            }
        }
        if let Some(cs) = self.color_identity {
            let mut cc: Vec<Color> = Vec::new();
            let mut i: usize = 0;
            while i < card.color_identity.len()
                invariant
                    i <= card.color_identity@.len(),
                    cc@ == card.color_identity@.take(i as int),
                decreases card.color_identity@.len() - i,
            {
                cc.push(card.color_identity[i]);
                proof {
                    assert(cc@ =~= card.color_identity@.take(i + 1));
                }
                i = i + 1;
            }
            proof {
                assert(cc@ =~= card.color_identity@);
            }
            let arch = Colors::from_vec(cc);
            if !(arch == cs) {
                return false;
            }
        }
        if let Some(ns) = &self.names {
            if !contains_string(ns, card.name.as_str()) {
                return false;
            }
        }
        if let Some(fi) = self.card_face {
            if fi >= card.card_faces.len() {
                return false;
            }
        }
        let t_name: &String;
        let t_type: &Option<String>;
        let t_text: &Option<String>;
        match self.card_face {
            Some(fi) => {
                let f = &card.card_faces[fi];
                t_name = &f.name;
                t_type = &f.type_line;
                t_text = &f.oracle_text;
            },
            None => {
                t_name = &card.name;
                t_type = &card.type_line;
                t_text = &card.oracle_text;
            },
        }
        if let Some(ci) = self.category {
            if ci >= cats.len() {
                return false;
            }
            if let Some(re) = &cats[ci].type_filter {
                match t_type {
                    Some(tl) => {
                        if !re.is_match(tl.as_str()) {
                            return false;
                        }
                    },
                    None => {
                        return false;
                    },
                }
            }
        }
        if let Some(re) = &self.type_regex {
            match t_type {
                Some(tl) => {
                    if !re.is_match(tl.as_str()) {
                        return false;
                    }
                },
                None => {
                    return false;
                },
            }
        }
        if let Some(re) = &self.name_regex {
            if !re.is_match(t_name.as_str()) {
                return false;
            }
        }
        if let Some(re) = &self.text_regex {
            match t_text {
                Some(tx) => {
                    if !re.is_match(tx.as_str()) {
                        return false;
                    }
                },
                None => {
                    return false;
                },
            }
        }
        if let Some((f, l)) = self.format {
            match card.legality_of(f) {
                Some(actual) => {
                    if !(actual == l) {
                        return false;
                    }
                },
                None => {
                    return false;
                },
            }
        }
        true
    }
}

/// Law: a condition whose face selector names a face index the card does
/// not have never matches that card, whatever its other fields hold.
pub proof fn lemma_absent_face_never_matches(c: Condition, card: Card, cats: Seq<Category>)
    requires
        c.card_face matches Option::Some(i) && i >= card.card_faces@.len(),
    ensures
        !cond_matches(c, card, cats),
{
}


/// The configuration field a fatal error names.
#[derive(Debug, Clone, Copy, PartialEq, Eq, Structural, Hash)]
pub enum ConfigField {
    TypeRegex,
    NameRegex,
    TextRegex,
    ColorIdentity,
    Mana,
}

/// A fatal configuration error.  Loading aborts before any classification
/// occurs, and the error names the offending tag, and field where one
/// applies.
#[derive(Debug, PartialEq, Eq)]
pub enum ConfigError {
    /// A regex field of the named tag does not compile.
    InvalidRegex { tag: String, field: ConfigField },
    /// A color list of the named tag repeats a color.
    InvalidColors { tag: String, field: ConfigField },
    /// The named tag's condition names a category that is not defined.
    UnknownCategory { tag: String },
    /// The named tag's condition has no populated field and no implicit
    /// category filter, so it would match every card.
    EmptyCondition { tag: String },
}

/// One raw tag definition, as one configuration source states it: pattern
/// strings and plain optional fields, not yet compiled.
pub struct TagConfig {
    /// A pattern the targeted type line must match.
    pub type_regex: Option<String>,
    /// A pattern the targeted name must match.
    pub name_regex: Option<String>,
    /// A pattern the targeted rules text must match.
    pub text_regex: Option<String>,
    /// An explicit allow-list of card names.
    pub names: Option<Vec<String>>,
    /// The exact color-identity set, as a list of distinct colors.
    pub color_identity: Option<Vec<Color>>,
    /// The exact count of distinct colors in the color identity.
    pub color_identity_len: Option<usize>,
    /// The colors shown beside mana-pool tags; display only.
    pub mana: Option<Vec<Color>>,
    /// Exact converted-mana-cost equality.
    pub cmc: Option<Cmc>,
    /// The face the textual checks target.
    pub card_face: Option<usize>,
    /// The name of the category this condition assigns.
    pub category: Option<String>,
    /// Alternate names, for search and aliasing; never matched against.
    pub alt_names: Vec<String>,
    /// Names of tags presented as refinements under this tag.
    pub subtags: Vec<String>,
    /// The display-grouping kind.
    pub kind: TagKind,
    /// With `legality`, the format-legality pair the card must have.
    pub format: Option<Format>,
    /// With `format`, the format-legality pair the card must have.
    pub legality: Option<Legality>,
    /// A free-text description shown on the tag's page.
    pub description: Option<String>,
}

/// The names of the categories, in order.
pub open spec fn cat_names(cats: Seq<Category>) -> Seq<Seq<char>> {
    cats.map_values(|c: Category| c.name@)
}

/// The position of the first category with the given name, if any.
pub open spec fn find_category(cats: Seq<Category>, name: Seq<char>) -> Option<int> {
    crate::text::find_name(cat_names(cats), name)
}

/// The first category with the given name, by linear search.
pub fn find_category_in(cats: &Vec<Category>, name: &str) -> (r: Option<usize>)
    ensures
        match find_category(cats@, name@) {
            Option::Some(i) => r matches Option::Some(u) && u as int == i && u < cats@.len()
                && cats@[u as int].name@ == name@,
            Option::None => r is None,
        },
{
    let mut i: usize = 0;
    while i < cats.len()
        invariant
            i <= cats@.len(),
            forall|k: int| 0 <= k < i ==> cats@[k].name@ != name@,
        decreases cats@.len() - i,
    {
        if str_eq(cats[i].name.as_str(), name) {
            proof {
                crate::text::lemma_find_name(cat_names(cats@), name@);
                assert(cat_names(cats@)[i as int] == name@);
                assert(forall|k: int| 0 <= k < i ==> cat_names(cats@)[k] != name@);
                match find_category(cats@, name@) {
                    Option::Some(j) => {
                        assert(cat_names(cats@)[j] == name@);
                        assert(j == i as int);
                    },
                    Option::None => {
                        assert(cat_names(cats@)[i as int] != name@);
                    },
                }
            }
            return Some(i);
        }
        i = i + 1;
    }
    proof {
        crate::text::lemma_find_name(cat_names(cats@), name@);
        assert(forall|k: int| 0 <= k < cats@.len() ==> cat_names(cats@)[k] != name@);
        match find_category(cats@, name@) {
            Option::Some(j) => {
                assert(cat_names(cats@)[j] == name@);
                assert(false);
            },
            Option::None => {},
        }
    }
    None
}

/// Correspondence between an optional pattern string and the optional
/// matcher compiled from it.
pub open spec fn regex_corresponds(re: Option<CompiledRegex>, pat: Option<String>) -> bool {
    match pat {
        Option::Some(p) => re matches Option::Some(r) && r.pattern_view() == p@,
        Option::None => re is None,
    }
}

/// What the condition compiled from a raw definition holds, field by
/// field.
pub open spec fn cond_corresponds(c: Condition, config: TagConfig, cats: Seq<Category>) -> bool {
    &&& c.cmc == config.cmc
    &&& c.color_identity_len == config.color_identity_len
    &&& (match config.color_identity {
        Option::Some(v) => c.color_identity == Option::Some(archetype_spec(v@)),
        Option::None => c.color_identity is None,
    })
    &&& c.names == config.names
    &&& c.card_face == config.card_face
    &&& (match config.category {
        Option::Some(cn) => c.category matches Option::Some(ci) && find_category(cats, cn@)
            == Option::Some(ci as int),
        Option::None => c.category is None,
    })
    &&& regex_corresponds(c.type_regex, config.type_regex)
    &&& regex_corresponds(c.name_regex, config.name_regex)
    &&& regex_corresponds(c.text_regex, config.text_regex)
    &&& (match (config.format, config.legality) {
        (Option::Some(f), Option::Some(l)) => c.format == Option::Some((f, l)),
        _ => c.format is None,
    })
}

/// Two string lists holding the same set of strings.
pub open spec fn string_set_eq(a: Seq<String>, b: Seq<String>) -> bool {
    forall|s: Seq<char>| contains_string_spec(a, s) == contains_string_spec(b, s)
}

/// What the tag compiled from one raw definition holds.
pub open spec fn tag_corresponds(
    t: TagData,
    name: Seq<char>,
    config: TagConfig,
    cats: Seq<Category>,
) -> bool {
    &&& t.name@ == name
    &&& t.canonical_name@ == slug_of(name)
    &&& t.kind == config.kind
    &&& t.description == config.description
    &&& t.cmc == config.cmc
    &&& (match config.color_identity {
        Option::Some(v) => t.color_identity == Option::Some(archetype_spec(v@)),
        Option::None => t.color_identity is None,
    })
    &&& (match config.mana {
        Option::Some(v) => t.mana == Option::Some(archetype_spec(v@)),
        Option::None => t.mana is None,
    })
    &&& (match (config.format, config.legality) {
        (Option::Some(f), Option::Some(l)) => t.format == Option::Some((f, l)),
        _ => t.format is None,
    })
    &&& t.conditions@.len() == 1
    &&& cond_corresponds(t.conditions@[0], config, cats)
    &&& string_set_eq(t.alt_names@, config.alt_names@)
    &&& string_set_eq(t.subtags@, config.subtags@)
}

/// Whether an optional pattern, if present, is a valid regex.
pub open spec fn valid_opt_pattern(p: Option<String>) -> bool {
    match p {
        Option::Some(s) => regex_valid(s@),
        Option::None => true,
    }
}

/// Whether a raw definition would yield a condition with no populated
/// field and no implicit category filter: such a condition would match
/// every card and is flagged as a defect.
pub open spec fn config_is_vacuous(config: TagConfig, cats: Seq<Category>) -> bool {
    &&& config.cmc is None
    &&& config.color_identity_len is None
    &&& config.color_identity is None
    &&& config.names is None
    &&& config.type_regex is None
    &&& config.name_regex is None
    &&& config.text_regex is None
    &&& !(config.format is Some && config.legality is Some)
    &&& (match config.category {
        Option::Some(cn) => match find_category(cats, cn@) {
            Option::Some(ci) => cats[ci].type_filter is None,
            Option::None => true,
        },
        Option::None => true,
    })
}

/// Whether one raw definition compiles without a fatal error.
pub open spec fn spec_config_ok(config: TagConfig, cats: Seq<Category>) -> bool {
    &&& valid_opt_pattern(config.type_regex)
    &&& valid_opt_pattern(config.name_regex)
    &&& valid_opt_pattern(config.text_regex)
    &&& (config.category matches Option::Some(cn) ==> find_category(cats, cn@) is Some)
    &&& (config.color_identity matches Option::Some(v) ==> distinct_colors(v@))
    &&& (config.mana matches Option::Some(v) ==> distinct_colors(v@))
    &&& !config_is_vacuous(config, cats)
}

/// The error that compiling a faulty definition reports: the first fault
/// in the fixed check order, always naming the tag.
pub open spec fn config_error_expected(
    e: ConfigError,
    name: Seq<char>,
    config: TagConfig,
    cats: Seq<Category>,
) -> bool {
    let type_bad = config.type_regex matches Option::Some(p) && !regex_valid(p@);
    let name_bad = config.name_regex matches Option::Some(p) && !regex_valid(p@);
    let text_bad = config.text_regex matches Option::Some(p) && !regex_valid(p@);
    let cat_bad = config.category matches Option::Some(cn) && find_category(cats, cn@) is None;
    let ci_bad = config.color_identity matches Option::Some(v) && !distinct_colors(v@);
    let mana_bad = config.mana matches Option::Some(v) && !distinct_colors(v@);
    if type_bad {
        e matches ConfigError::InvalidRegex { tag, field } && tag@ == name && field
            == ConfigField::TypeRegex
    } else if name_bad {
        e matches ConfigError::InvalidRegex { tag, field } && tag@ == name && field
            == ConfigField::NameRegex
    } else if text_bad {
        e matches ConfigError::InvalidRegex { tag, field } && tag@ == name && field
            == ConfigField::TextRegex
    } else if cat_bad {
        e matches ConfigError::UnknownCategory { tag } && tag@ == name
    } else if ci_bad {
        e matches ConfigError::InvalidColors { tag, field } && tag@ == name && field
            == ConfigField::ColorIdentity
    } else if mana_bad {
        e matches ConfigError::InvalidColors { tag, field } && tag@ == name && field
            == ConfigField::Mana
    } else if config_is_vacuous(config, cats) {
        e matches ConfigError::EmptyCondition { tag } && tag@ == name
    } else {
        false
    }
}

/// One compiled tag: a named classification rule with its alternative
/// match conditions and display metadata.
pub struct TagData {
    /// The canonical display name; unique within a tag index.
    pub name: String,
    /// Alternate names, distinct, for search and aliasing.
    pub alt_names: Vec<String>,
    /// A free-text description shown on the tag's page.
    pub description: Option<String>,
    /// Names of tags presented as refinements under this tag, distinct.
    /// They resolve by name lookup at render time; unresolved names are
    /// simply absent.
    pub subtags: Vec<String>,
    /// The canonical slug of the name, for file and URL naming.
    pub canonical_name: String,
    /// The display-grouping kind.
    pub kind: TagKind,
    /// The cost shown and sorted on for cost tags.
    pub cmc: Option<Cmc>,
    /// The archetype shown and sorted on for color-identity tags.
    pub color_identity: Option<Colors>,
    /// The archetype shown and sorted on for mana-pool tags.
    pub mana: Option<Colors>,
    /// The format-legality pair shown for format tags.
    pub format: Option<(Format, Legality)>,
    /// The alternative match conditions; any one matching suffices.
    pub conditions: Vec<Condition>,
}

/// Whether a tag matches a card: some condition of it does.
pub open spec fn tag_matches(t: TagData, card: Card, cats: Seq<Category>) -> bool {
    exists|j: int|
        0 <= j < t.conditions@.len() && cond_matches(#[trigger] t.conditions@[j], card, cats)
}

impl TagData {
    /// A well-formed tag carries the slug of its own name and keeps its
    /// alternate names and subtag names distinct.
    pub open spec fn wf(self) -> bool {
        &&& self.canonical_name@ == slug_of(self.name@)
        &&& distinct_strings(self.alt_names@)
        &&& distinct_strings(self.subtags@)
    }

    /// A bare tag: a name with no conditions and no metadata, as created
    /// for names that only the curated card list mentions.
    pub fn new(name: &str) -> (r: TagData)
        ensures
            r.wf(),
            r.name@ == name@,
            r.canonical_name@ == slug_of(name@),
            r.kind == TagKind::Other,
            r.alt_names@.len() == 0,
            r.subtags@.len() == 0,
            r.conditions@.len() == 0,
            r.description is None,
            r.cmc is None,
            r.color_identity is None,
            r.mana is None,
            r.format is None,
    {
        TagData {
            name: name.to_owned(),
            alt_names: Vec::new(),
            description: None,
            subtags: Vec::new(),
            canonical_name: canonical_slug(name),
            kind: TagKind::Other,
            cmc: None,
            color_identity: None,
            mana: None,
            format: None,
            conditions: Vec::new(),
        }
    }

    /// Compiles one raw definition into a tag with a single condition.
    /// Every regex is compiled with dot-matches-newline semantics.  A
    /// fatal error names the offending tag and field; the first fault in
    /// the fixed check order is reported.
    pub fn from_config(name: &str, config: TagConfig, cats: &Vec<Category>) -> (r: Result<
        TagData,
        ConfigError,
    >)
        ensures
            r is Ok <==> spec_config_ok(config, cats@),
            r matches Ok(t) ==> tag_corresponds(t, name@, config, cats@) && t.wf(),
            r matches Err(e) ==> config_error_expected(e, name@, config, cats@),
    {
        let TagConfig {
            type_regex,
            name_regex,
            text_regex,
            names,
            color_identity,
            color_identity_len,
            mana,
            cmc,
            card_face,
            category,
            alt_names,
            subtags,
            kind,
            format,
            legality,
            description,
        } = config;
        let compiled_type = match type_regex {
            Some(p) => match CompiledRegex::compile(p.as_str()) {
                Ok(re) => Some(re),
                Err(_) => {
                    return Err(
                        ConfigError::InvalidRegex {
                            tag: name.to_owned(),
                            field: ConfigField::TypeRegex,
                        },
                    );
                },
            },
            None => None,
        };
        let compiled_name = match name_regex {
            Some(p) => match CompiledRegex::compile(p.as_str()) {
                Ok(re) => Some(re),
                Err(_) => {
                    return Err(
                        ConfigError::InvalidRegex {
                            tag: name.to_owned(),
                            field: ConfigField::NameRegex,
                        },
                    );
                },
            },
            None => None,
        };
        let compiled_text = match text_regex {
            Some(p) => match CompiledRegex::compile(p.as_str()) {
                Ok(re) => Some(re),
                Err(_) => {
                    return Err(
                        ConfigError::InvalidRegex {
                            tag: name.to_owned(),
                            field: ConfigField::TextRegex,
                        },
                    );
                },
            },
            None => None,
        };
        let category_idx = match &category {
            Some(cn) => match find_category_in(cats, cn.as_str()) {
                Some(ci) => Some(ci),
                None => {
                    return Err(ConfigError::UnknownCategory { tag: name.to_owned() });
                },
            },
            None => None,
        };
        let ci_colors = match color_identity {
            Some(v) => {
                if !crate::color::colors_distinct(&v) {
                    return Err(
                        ConfigError::InvalidColors {
                            tag: name.to_owned(),
                            field: ConfigField::ColorIdentity,
                        },
                    );
                }
                Some(Colors::from_vec(v))
            },
            None => None,
        };
        let mana_colors = match mana {
            Some(v) => {
                if !crate::color::colors_distinct(&v) {
                    return Err(
                        ConfigError::InvalidColors {
                            tag: name.to_owned(),
                            field: ConfigField::Mana,
                        },
                    );
                }
                Some(Colors::from_vec(v))
            },
            None => None,
        };
        let format_pair = match (format, legality) {
            (Some(f), Some(l)) => Some((f, l)),
            _ => None,
        };
        let implicit_filter = match category_idx {
            Some(ci) => cats[ci].type_filter.is_some(),
            None => false,
        };
        if !implicit_filter && cmc.is_none() && color_identity_len.is_none() && ci_colors.is_none()
            && names.is_none() && compiled_type.is_none() && compiled_name.is_none()
            && compiled_text.is_none() && format_pair.is_none() {
            return Err(ConfigError::EmptyCondition { tag: name.to_owned() });
        }
        let mut alt: Vec<String> = Vec::new();
        extend_unique(&mut alt, &alt_names);
        let mut st: Vec<String> = Vec::new();
        extend_unique(&mut st, &subtags);
        let mut conditions: Vec<Condition> = Vec::new();
        conditions.push(
            Condition {
                cmc,
                color_identity_len,
                color_identity: ci_colors,
                names,
                card_face,
                category: category_idx,
                type_regex: compiled_type,
                name_regex: compiled_name,
                text_regex: compiled_text,
                format: format_pair,
            },
        );
        Ok(
            TagData {
                name: name.to_owned(),
                alt_names: alt,
                description,
                subtags: st,
                canonical_name: canonical_slug(name),
                kind,
                cmc,
                color_identity: ci_colors,
                mana: mana_colors,
                format: format_pair,
                conditions,
            },
        )
    }

    /// Evaluates this tag against a card: true when any condition matches.
    pub fn is_match(&self, card: &Card, cats: &Vec<Category>) -> (r: bool)
        requires
            card.wf(),
        ensures
            r == tag_matches(*self, *card, cats@),
    {
        let mut j: usize = 0;
        while j < self.conditions.len()
            invariant
                j <= self.conditions@.len(),
                card.wf(),
                forall|k: int|
                    0 <= k < j ==> !cond_matches(#[trigger] self.conditions@[k], *card, cats@),
            decreases self.conditions@.len() - j,
        {
            if self.conditions[j].matches(card, cats) {
                return true;
            }
            j = j + 1;
        }
        false
    }
}

/// The truncated cost a cost tag displays; zero when none is configured.
pub open spec fn spec_cost_value(t: TagData) -> nat {
    match t.cmc {
        Option::Some(c) => (c.halves / 2) as nat,
        Option::None => 0,
    }
}

/// The display name of a tag: cost tags show their truncated cost, format
/// tags their legality and format, and every other kind shows its
/// configured name unchanged.
pub open spec fn spec_display_name(t: TagData) -> Seq<char> {
    match t.kind {
        TagKind::Cost => "CMC: "@ + crate::text::spec_decimal(spec_cost_value(t)),
        TagKind::Format => match t.format {
            Option::Some(fl) => crate::scryfall::spec_legality_name(fl.1) + " in "@
                + crate::scryfall::spec_format_name(fl.0),
            Option::None => t.name@,
        },
        _ => t.name@,
    }
}

impl TagData {
    /// The tag's display name.  A format tag must carry its
    /// format-legality pair.
    pub fn name(&self) -> (r: String)
        requires
            self.kind == TagKind::Format ==> self.format is Some,
        ensures
            r@ == spec_display_name(*self),
    {
        match self.kind {
            TagKind::Cost => {
                let v: u32 = match self.cmc {
                    Some(c) => c.truncated(),
                    None => 0,
                };
                let mut s = "CMC: ".to_owned();
                s.append(crate::text::u32_to_string(v).as_str());
                s
            },
            TagKind::Format => match self.format {
                Some((f, l)) => {
                    let mut s = l.name().to_owned();
                    s.append(" in ");
                    s.append(f.name());
                    s
                },
                None => self.name.clone(),
            },
            _ => self.name.clone(),
        }
    }

    /// The raw configured name of the tag, as the index keys it.
    pub fn raw_name(&self) -> (r: &str)
        ensures
            r@ == self.name@,
    {
        self.name.as_str()
    }

    /// The mana-cost symbol snippet of a cost tag, or nothing.
    pub fn cmc_symbol(&self) -> (r: String)
        ensures
            match self.cmc {
                Option::Some(c) => r@ == "<span class=\"mana s"@ + crate::text::spec_decimal(
                    (c.halves / 2) as nat,
                ) + "\"></span>"@,
                Option::None => r@ == Seq::<char>::empty(),
            },
    {
        match self.cmc {
            Some(c) => {
                let mut s = "<span class=\"mana s".to_owned();
                s.append(crate::text::u32_to_string(c.truncated()).as_str());
                s.append("\"></span>");
                s
            },
            None => String::new(),
        }
    }

    /// The display-grouping kind.
    pub fn kind(&self) -> (r: TagKind)
        ensures
            r == self.kind,
    {
        self.kind
    }

    /// The mana symbols of the tag's color identity, or nothing.
    pub fn color_identity_symbols(&self) -> (r: String)
        ensures
            match self.color_identity {
                Option::Some(c) => r@ == crate::color::spec_colors_symbols(c),
                Option::None => r@ == Seq::<char>::empty(),
            },
    {
        match self.color_identity {
            Some(c) => c.mana_symbols(),
            None => String::new(),
        }
    }

    /// The mana symbols of the tag's mana colors, or nothing.
    pub fn mana_symbols(&self) -> (r: String)
        ensures
            match self.mana {
                Option::Some(c) => r@ == crate::color::spec_colors_symbols(c),
                Option::None => r@ == Seq::<char>::empty(),
            },
    {
        match self.mana {
            Some(c) => c.mana_symbols(),
            None => String::new(),
        }
    }

    /// The canonical slug of the tag's name.
    pub fn canonical_name(&self) -> (r: &str)
        ensures
            r@ == self.canonical_name@,
    {
        self.canonical_name.as_str()
    }

    /// The names of the tags presented as refinements under this tag.
    pub fn subtags(&self) -> (r: &Vec<String>)
        ensures
            r == &self.subtags,
    {
        &self.subtags
    }

    /// Whether the tag has alternate names.
    pub fn has_alt_names(&self) -> (r: bool)
        ensures
            r == (self.alt_names@.len() != 0),
    {
        self.alt_names.len() != 0
    }

    /// The alternate names joined for display.
    pub fn alt_names_string(&self) -> (r: String)
        ensures
            r@ == crate::text::join_seqs(crate::text::views_of(self.alt_names@), ", "@),
    {
        crate::text::join_strs(&self.alt_names, ", ")
    }

    /// The tag's free-text description, if it has one.
    pub fn description(&self) -> (r: Option<&str>)
        ensures
            match self.description {
                Option::Some(d) => r matches Option::Some(s) && s@ == d@,
                Option::None => r is None,
            },
    {
        match &self.description {
            Some(d) => Some(d.as_str()),
            None => None,
        }
    }
}

/// Law: OR semantics across a tag's conditions.  A tag with two conditions
/// matches a card exactly when the card satisfies either condition alone,
/// and a card satisfying neither does not match.
pub proof fn lemma_tag_or_semantics(t: TagData, card: Card, cats: Seq<Category>)
    requires
        t.conditions@.len() == 2,
    ensures
        tag_matches(t, card, cats) <==> (cond_matches(t.conditions@[0], card, cats)
            || cond_matches(t.conditions@[1], card, cats)),
{
    if tag_matches(t, card, cats) {
        let j = choose|j: int|
            0 <= j < t.conditions@.len() && cond_matches(#[trigger] t.conditions@[j], card, cats);
        assert(j == 0 || j == 1);
    }
    if cond_matches(t.conditions@[0], card, cats) {
        assert(tag_matches(t, card, cats));
    }
    if cond_matches(t.conditions@[1], card, cats) {
        assert(tag_matches(t, card, cats));
    }
}

/// Law: merging preserves both sides.  A tag whose conditions are those of
/// an existing tag with one more appended matches a card exactly when the
/// existing tag matched it or the appended condition matches it.
pub proof fn lemma_merge_preserves_matching(
    merged: TagData,
    before: TagData,
    c: Condition,
    card: Card,
    cats: Seq<Category>,
)
    requires
        merged.conditions@ == before.conditions@.push(c),
    ensures
        tag_matches(merged, card, cats) <==> (tag_matches(before, card, cats) || cond_matches(
            c,
            card,
            cats,
        )),
{
    let n = before.conditions@.len() as int;
    if tag_matches(merged, card, cats) {
        let j = choose|j: int|
            0 <= j < merged.conditions@.len() && cond_matches(
                #[trigger] merged.conditions@[j],
                card,
                cats,
            );
        if j < n {
            assert(before.conditions@[j] == merged.conditions@[j]);
            assert(tag_matches(before, card, cats));
        } else {
            assert(merged.conditions@[n] == c);
        }
    }
    if tag_matches(before, card, cats) {
        let j = choose|j: int|
            0 <= j < before.conditions@.len() && cond_matches(
                #[trigger] before.conditions@[j],
                card,
                cats,
            );
        assert(merged.conditions@[j] == before.conditions@[j]);
        assert(cond_matches(merged.conditions@[j], card, cats));
        assert(tag_matches(merged, card, cats));
    }
    if cond_matches(c, card, cats) {
        assert(merged.conditions@[n] == c);
        assert(cond_matches(merged.conditions@[n], card, cats));
        assert(tag_matches(merged, card, cats));
    }
}


/// The names of the tags, in order.
pub open spec fn tag_names(tags: Seq<TagData>) -> Seq<Seq<char>> {
    tags.map_values(|t: TagData| t.name@)
}

/// The position of the first tag with the given name, if any.
pub open spec fn find_tag(tags: Seq<TagData>, name: Seq<char>) -> Option<int> {
    crate::text::find_name(tag_names(tags), name)
}

/// Whether some tag has the given name.
pub open spec fn has_tag(tags: Seq<TagData>, name: Seq<char>) -> bool {
    exists|i: int| 0 <= i < tags.len() && tags[i].name@ == name
}

/// What merging one further raw definition into an existing tag yields:
/// the new condition is appended, the alternate names and subtags become
/// the union of both sides, and the existing name, kind and display
/// metadata stand unchanged.
pub open spec fn merged_tag_corresponds(
    t2: TagData,
    t1: TagData,
    config: TagConfig,
    cats: Seq<Category>,
) -> bool {
    &&& t2.name == t1.name
    &&& t2.canonical_name == t1.canonical_name
    &&& t2.kind == t1.kind
    &&& t2.description == t1.description
    &&& t2.cmc == t1.cmc
    &&& t2.color_identity == t1.color_identity
    &&& t2.mana == t1.mana
    &&& t2.format == t1.format
    &&& t2.conditions@.len() == t1.conditions@.len() + 1
    &&& (forall|q: int| 0 <= q < t1.conditions@.len() ==> t2.conditions@[q] == t1.conditions@[q])
    &&& cond_corresponds(t2.conditions@.last(), config, cats)
    &&& (forall|s: Seq<char>|
        contains_string_spec(t2.alt_names@, s) == (contains_string_spec(t1.alt_names@, s)
            || contains_string_spec(config.alt_names@, s)))
    &&& (forall|s: Seq<char>|
        contains_string_spec(t2.subtags@, s) == (contains_string_spec(t1.subtags@, s)
            || contains_string_spec(config.subtags@, s)))
}

/// A tag extended by later definitions: everything the earlier tag stated
/// still stands, with its conditions an unchanged prefix and its name sets
/// only grown.
pub open spec fn tag_extends(t2: TagData, t1: TagData) -> bool {
    &&& t2.name == t1.name
    &&& t2.canonical_name == t1.canonical_name
    &&& t2.kind == t1.kind
    &&& t2.description == t1.description
    &&& t2.cmc == t1.cmc
    &&& t2.color_identity == t1.color_identity
    &&& t2.mana == t1.mana
    &&& t2.format == t1.format
    &&& t1.conditions@.len() <= t2.conditions@.len()
    &&& (forall|q: int| 0 <= q < t1.conditions@.len() ==> t2.conditions@[q] == t1.conditions@[q])
    &&& (forall|s: Seq<char>|
        contains_string_spec(t1.alt_names@, s) ==> contains_string_spec(t2.alt_names@, s))
    &&& (forall|s: Seq<char>|
        contains_string_spec(t1.subtags@, s) ==> contains_string_spec(t2.subtags@, s))
}

/// Extension composes.
pub proof fn lemma_tag_extends_trans(a: TagData, b: TagData, c: TagData)
    requires
        tag_extends(b, a),
        tag_extends(c, b),
    ensures
        tag_extends(c, a),
{
}

/// The compiled tag index.  Tags are owned here once; names are unique, so
/// a position in the list is a stable handle by which every downstream
/// structure refers to a tag.
pub struct TagIndex {
    /// The compiled tags, in insertion order.
    pub entries: Vec<TagData>,
}

impl TagIndex {
    /// A well-formed index holds well-formed tags under distinct names.
    pub open spec fn wf(self) -> bool {
        &&& (forall|i: int, j: int|
            0 <= i < j < self.entries@.len() ==> self.entries@[i].name@ != self.entries@[j].name@)
        &&& (forall|i: int| 0 <= i < self.entries@.len() ==> (#[trigger] self.entries@[i]).wf())
    }

    /// An empty index.
    pub fn new() -> (r: TagIndex)
        ensures
            r.entries@.len() == 0,
            r.wf(),
    {
        TagIndex { entries: Vec::new() }
    }

    /// The number of tags.
    pub fn len(&self) -> (r: usize)
        ensures
            r == self.entries@.len(),
    {
        self.entries.len()
    }

    /// The handle of the tag with the given name, by linear search.
    pub fn get_index(&self, name: &str) -> (r: Option<usize>)
        ensures
            match find_tag(self.entries@, name@) {
                Option::Some(i) => r matches Option::Some(u) && u as int == i && u
                    < self.entries@.len() && self.entries@[u as int].name@ == name@,
                Option::None => r is None,
            },
            r is None ==> !has_tag(self.entries@, name@),
{
        let mut i: usize = 0;
        while i < self.entries.len()
            invariant
                i <= self.entries@.len(),
                forall|k: int| 0 <= k < i ==> self.entries@[k].name@ != name@,
            decreases self.entries@.len() - i,
        {
            if str_eq(self.entries[i].name.as_str(), name) {
                proof {
                    crate::text::lemma_find_name(tag_names(self.entries@), name@);
                    assert(tag_names(self.entries@)[i as int] == name@);
                    assert(forall|k: int| 0 <= k < i ==> tag_names(self.entries@)[k] != name@);
                    match find_tag(self.entries@, name@) {
                        Option::Some(j) => {
                            assert(tag_names(self.entries@)[j] == name@);
                            assert(j == i as int);
                        },
                        Option::None => {
                            assert(tag_names(self.entries@)[i as int] != name@);
                        },
                    }
                }
                return Some(i);
            }
            i = i + 1;
        }
        proof {
            crate::text::lemma_find_name(tag_names(self.entries@), name@);
            assert(forall|k: int|
                0 <= k < self.entries@.len() ==> tag_names(self.entries@)[k] != name@);
            match find_tag(self.entries@, name@) {
                Option::Some(j) => {
                    assert(tag_names(self.entries@)[j] == name@);
                    assert(false);
                },
                Option::None => {},
            }
        }
        None
    }

    /// The tag with the given name, if the index holds one.  Two lookups
    /// of one name yield the same handle, so identity is stable.
    pub fn get(&self, name: &str) -> (r: Option<&TagData>)
        ensures
            match find_tag(self.entries@, name@) {
                Option::Some(i) => r matches Option::Some(t) && *t == self.entries@[i],
                Option::None => r is None,
            },
    {
        match self.get_index(name) {
            Some(i) => Some(&self.entries[i]),
            None => None,
        }
    }

    /// Compiles one raw definition into the index.  A fresh name becomes a
    /// new tag; a name already present merges: the definition's condition
    /// is appended to the existing tag (keeping OR semantics), its
    /// alternate names and subtags are unioned without duplication, and
    /// the existing name and kind are not overwritten.
    pub fn add_definition(&mut self, name: &str, config: TagConfig, cats: &Vec<Category>) -> (r:
        Result<(), ConfigError>)
        requires
            old(self).wf(),
        ensures
            final(self).wf(),
            r is Ok <==> spec_config_ok(config, cats@),
            r matches Err(e) ==> *final(self) == *old(self) && config_error_expected(
                e,
                name@,
                config,
                cats@,
            ),
            r is Ok ==> match find_tag(old(self).entries@, name@) {
                Option::None => {
                    &&& final(self).entries@.len() == old(self).entries@.len() + 1
                    &&& (forall|j: int|
                        0 <= j < old(self).entries@.len() ==> final(self).entries@[j] == old(
                            self,
                        ).entries@[j])
                    &&& tag_corresponds(final(self).entries@.last(), name@, config, cats@)
                },
                Option::Some(i) => {
                    &&& final(self).entries@.len() == old(self).entries@.len()
                    &&& (forall|j: int|
                        0 <= j < old(self).entries@.len() && j != i ==> final(self).entries@[j]
                            == old(self).entries@[j])
                    &&& merged_tag_corresponds(
                        final(self).entries@[i],
                        old(self).entries@[i],
                        config,
                        cats@,
                    )
                },
            },
            r is Ok ==> has_tag(final(self).entries@, name@),
            forall|j: int|
                0 <= j < old(self).entries@.len() ==> tag_extends(
                    #[trigger] final(self).entries@[j],
                    old(self).entries@[j],
                ),
            final(self).entries@.len() >= old(self).entries@.len(),
    {
        let nt = match TagData::from_config(name, config, cats) {
            Ok(t) => t,
            Err(e) => {
                return Err(e);
            },
        };
        match self.get_index(name) {
            None => {
                self.entries.push(nt);
                proof {
                    assert(forall|j: int|
                        0 <= j < old(self).entries@.len() ==> self.entries@[j] == old(
                            self,
                        ).entries@[j]);
                    assert(self.entries@.last().name@ == name@);
                }
                Ok(())
            },
            Some(i) => {
                let mut nt = nt;
                let ghost gconfig = config;
                let ghost before = self.entries@;
                let mut t = self.entries.remove(i);
                let ghost alt0 = t.alt_names@;
                let ghost sub0 = t.subtags@;
                let c = nt.conditions.remove(0);
                t.conditions.push(c);
                extend_unique(&mut t.alt_names, &nt.alt_names);
                extend_unique(&mut t.subtags, &nt.subtags);
                let ghost alt1 = t.alt_names@;
                let ghost sub1 = t.subtags@;
                proof {
                    assert forall|s: Seq<char>|
                        contains_string_spec(alt1, s) == (contains_string_spec(alt0, s)
                            || contains_string_spec(gconfig.alt_names@, s)) by {
                        assert(contains_string_spec(nt.alt_names@, s) == contains_string_spec(
                            gconfig.alt_names@,
                            s,
                        ));
                    }
                    assert forall|s: Seq<char>|
                        contains_string_spec(sub1, s) == (contains_string_spec(sub0, s)
                            || contains_string_spec(gconfig.subtags@, s)) by {
                        assert(contains_string_spec(nt.subtags@, s) == contains_string_spec(
                            gconfig.subtags@,
                            s,
                        ));
                    }
                }
                self.entries.insert(i, t);
                proof {
                    assert(self.entries@ =~= before.update(i as int, self.entries@[i as int]));
                    assert(self.entries@[i as int].name@ == before[i as int].name@);
                    assert(forall|j: int|
                        0 <= j < before.len() && j != i ==> self.entries@[j] == before[j]);
                    assert(self.entries@[i as int].conditions@.last() == c);
                    assert(self.entries@[i as int].alt_names@ == alt1);
                    assert(self.entries@[i as int].subtags@ == sub1);
                }
                Ok(())
            },
        }
    }

    /// Compiles every definition of one configuration source into the
    /// index, in order, merging names that are already present.  The first
    /// faulty definition aborts the whole load with its error; tags
    /// already present are only ever extended, never overwritten.
    pub fn merge_source(&mut self, source: Vec<(String, TagConfig)>, cats: &Vec<Category>) -> (r:
        Result<(), ConfigError>)
        requires
            old(self).wf(),
        ensures
            final(self).wf(),
            r is Ok <==> (forall|k: int|
                0 <= k < source@.len() ==> spec_config_ok(#[trigger] source@[k].1, cats@)),
            r is Ok ==> (forall|k: int|
                0 <= k < source@.len() ==> has_tag(
                    final(self).entries@,
                    (#[trigger] source@[k]).0@,
                )),
            r matches Err(e) ==> exists|k: int|
                0 <= k < source@.len() && config_error_expected(
                    e,
                    (#[trigger] source@[k]).0@,
                    source@[k].1,
                    cats@,
                ),
            forall|j: int|
                0 <= j < old(self).entries@.len() ==> tag_extends(
                    #[trigger] final(self).entries@[j],
                    old(self).entries@[j],
                ),
            final(self).entries@.len() >= old(self).entries@.len(),
    {
        let ghost orig = source@;
        let mut rest = source;
        let total: usize = rest.len();
        let mut done: usize = 0;
        while rest.len() > 0
            invariant
                self.wf(),
                orig == source@,
                done + rest@.len() == total,
                total == orig.len(),
                rest@ == orig.skip(done as int),
                forall|k: int| 0 <= k < done ==> spec_config_ok(#[trigger] orig[k].1, cats@),
                forall|k: int|
                    0 <= k < done ==> has_tag(self.entries@, (#[trigger] orig[k]).0@),
                forall|j: int|
                    0 <= j < old(self).entries@.len() ==> tag_extends(
                        #[trigger] self.entries@[j],
                        old(self).entries@[j],
                    ),
                self.entries@.len() >= old(self).entries@.len(),
            decreases rest@.len(),
        {
            let ghost pre = self.entries@;
            proof {
                assert(rest@[0] == orig[done as int]);
            }
            let (nm, cfg) = rest.remove(0);
            let ghost gcfg = cfg;
            proof {
                assert(orig.skip(done as int).remove(0) =~= orig.skip(done + 1));
                assert(nm@ == orig[done as int].0@);
                assert(gcfg == orig[done as int].1);
            }
            match self.add_definition(nm.as_str(), cfg, cats) {
                Ok(()) => {},
                Err(e) => {
                    proof {
                        assert(0 <= done < source@.len());
                        assert(source@[done as int] == orig[done as int]);
                        assert(!spec_config_ok(source@[done as int].1, cats@));
                        assert(config_error_expected(
                            e,
                            source@[done as int].0@,
                            source@[done as int].1,
                            cats@,
                        ));
                    }
                    return Err(e);
                },
            }
            proof {
                assert forall|j: int| 0 <= j < old(self).entries@.len() implies tag_extends(
                    #[trigger] self.entries@[j],
                    old(self).entries@[j],
                ) by {
                    lemma_tag_extends_trans(old(self).entries@[j], pre[j], self.entries@[j]);
                }
                assert forall|k: int| 0 <= k < done + 1 implies has_tag(
                    self.entries@,
                    (#[trigger] orig[k]).0@,
                ) by {
                    if k < done {
                        let w = choose|w: int|
                            0 <= w < pre.len() && pre[w].name@ == orig[k].0@;
                        assert(tag_extends(self.entries@[w], pre[w]));
                        assert(self.entries@[w].name@ == orig[k].0@);
                    }
                }
            }
            done = done + 1;
        }
        proof {
            assert(orig.skip(done as int).len() == 0);
            assert(done == orig.len());
        }
        Ok(())
    }

    /// Compiles a whole configuration source into a fresh index.
    pub fn from_config(source: Vec<(String, TagConfig)>, cats: &Vec<Category>) -> (r: Result<
        TagIndex,
        ConfigError,
    >)
        ensures
            r is Ok <==> (forall|k: int|
                0 <= k < source@.len() ==> spec_config_ok(#[trigger] source@[k].1, cats@)),
            r matches Ok(ix) ==> ix.wf() && (forall|k: int|
                0 <= k < source@.len() ==> has_tag(ix.entries@, (#[trigger] source@[k]).0@)),
            r matches Err(e) ==> exists|k: int|
                0 <= k < source@.len() && config_error_expected(
                    e,
                    (#[trigger] source@[k]).0@,
                    source@[k].1,
                    cats@,
                ),
    {
        let mut ix = TagIndex::new();
        match ix.merge_source(source, cats) {
            Ok(()) => Ok(ix),
            Err(e) => Err(e),
        }
    }

    /// Ensures that every tag name the curated card list mentions exists
    /// in the index, creating a bare tag for each name that is missing.
    /// Existing tags are untouched.
    pub fn merge_tags(&mut self, card_tags: &CardTags)
        requires
            old(self).wf(),
        ensures
            final(self).wf(),
            forall|j: int|
                0 <= j < old(self).entries@.len() ==> final(self).entries@[j] == old(
                    self,
                ).entries@[j],
            final(self).entries@.len() >= old(self).entries@.len(),
            forall|name: Seq<char>|
                card_tags.mentions(name) ==> has_tag(final(self).entries@, name),
            forall|j: int|
                old(self).entries@.len() <= j < final(self).entries@.len() ==> bare_tag(
                    #[trigger] final(self).entries@[j],
                ) && card_tags.mentions(final(self).entries@[j].name@),
    {
        let names = card_tags.tags();
        let mut i: usize = 0;
        while i < names.len()
            invariant
                self.wf(),
                i <= names@.len(),
                distinct_strings(names@),
                forall|s: Seq<char>|
                    contains_string_spec(names@, s) <==> card_tags.mentions(s),
                forall|j: int|
                    0 <= j < old(self).entries@.len() ==> self.entries@[j] == old(
                        self,
                    ).entries@[j],
                self.entries@.len() >= old(self).entries@.len(),
                forall|k: int| 0 <= k < i ==> has_tag(self.entries@, (#[trigger] names@[k])@),
                forall|j: int|
                    old(self).entries@.len() <= j < self.entries@.len() ==> bare_tag(
                        #[trigger] self.entries@[j],
                    ) && card_tags.mentions(self.entries@[j].name@),
            decreases names@.len() - i,
        {
            let ghost pre = self.entries@;
            match self.get_index(names[i].as_str()) {
                Some(u) => {
                    proof {
                        assert(self.entries@[u as int].name@ == names@[i as int]@);
                    }
                },
                None => {
                    let t = TagData::new(names[i].as_str());
                    proof {
                        assert(contains_string_spec(names@, names@[i as int]@));
                    }
                    self.entries.push(t);
                    proof {
                        assert(self.entries@[(self.entries@.len() - 1) as int].name@
                            == names@[i as int]@);
                    }
                },
            }
            proof {
                assert(has_tag(self.entries@, names@[i as int]@));
                assert forall|k: int| 0 <= k < i + 1 implies has_tag(
                    self.entries@,
                    (#[trigger] names@[k])@,
                ) by {
                    if k < i {
                        let w = choose|w: int| 0 <= w < pre.len() && pre[w].name@ == names@[k]@;
                        assert(self.entries@[w].name@ == names@[k]@);
                    }
                }
            }
            i = i + 1;
        }
        proof {
            assert forall|name: Seq<char>| card_tags.mentions(name) implies has_tag(
                self.entries@,
                name,
            ) by {
                assert(contains_string_spec(names@, name));
                let k = choose|k: int| 0 <= k < names@.len() && names@[k]@ == name;
            }
        }
    }
}

/// A bare tag as the curated list creates it: only a name and its slug,
/// kind Other, and no conditions, aliases, subtags or display metadata.
pub open spec fn bare_tag(t: TagData) -> bool {
    &&& t.kind == TagKind::Other
    &&& t.alt_names@.len() == 0
    &&& t.subtags@.len() == 0
    &&& t.conditions@.len() == 0
    &&& t.description is None
    &&& t.cmc is None
    &&& t.color_identity is None
    &&& t.mana is None
    &&& t.format is None
    &&& t.canonical_name@ == slug_of(t.name@)
}

/// The names of the curated list's entries, in order.
pub open spec fn entry_names(s: Seq<(String, Vec<String>)>) -> Seq<Seq<char>> {
    s.map_values(|e: (String, Vec<String>)| e.0@)
}

/// The position of the first entry for a card name, if any.
pub open spec fn find_entry(s: Seq<(String, Vec<String>)>, name: Seq<char>) -> Option<int> {
    crate::text::find_name(entry_names(s), name)
}

/// Whether some entry before position `n` lists the string `s` as a tag
/// name.
spec fn mentions_prefix(entries: Seq<(String, Vec<String>)>, n: int, s: Seq<char>) -> bool {
    exists|p: int| 0 <= p < n && contains_string_spec((#[trigger] entries[p]).1@, s)
}

/// The manually curated list: each entry pairs a card name with the tag
/// names that card is assigned outright, independent of rule matching.
pub struct CardTags(pub Vec<(String, Vec<String>)>);

impl CardTags {
    /// Whether the list mentions a tag name under any card.
    pub open spec fn mentions(self, name: Seq<char>) -> bool {
        exists|i: int, j: int|
            0 <= i < self.0@.len() && 0 <= j < self.0@[i].1@.len() && (#[trigger] self.0@[i].1@[j])@
                == name
    }

    /// The names of all curated cards, in entry order.
    pub fn cards(&self) -> (r: Vec<&String>)
        ensures
            r@.len() == self.0@.len(),
            forall|i: int| 0 <= i < r@.len() ==> (#[trigger] r@[i])@ == self.0@[i].0@,
    {
        let mut r: Vec<&String> = Vec::new();
        let mut i: usize = 0;
        while i < self.0.len()
            invariant
                i <= self.0@.len(),
                r@.len() == i,
                forall|k: int| 0 <= k < i ==> (#[trigger] r@[k])@ == self.0@[k].0@,
            decreases self.0@.len() - i,
        {
            r.push(&self.0[i].0);
            i = i + 1;
        }
        r
    }

    /// The tag names listed for a card, if the card is curated.
    pub fn get_tags(&self, name: &str) -> (r: Option<&Vec<String>>)
        ensures
            match find_entry(self.0@, name@) {
                Option::Some(i) => r matches Option::Some(v) && v@ == self.0@[i].1@,
                Option::None => r is None,
            },
    {
        let mut i: usize = 0;
        while i < self.0.len()
            invariant
                i <= self.0@.len(),
                forall|k: int| 0 <= k < i ==> self.0@[k].0@ != name@,
            decreases self.0@.len() - i,
        {
            if str_eq(self.0[i].0.as_str(), name) {
                proof {
                    crate::text::lemma_find_name(entry_names(self.0@), name@);
                    assert(entry_names(self.0@)[i as int] == name@);
                    assert(forall|k: int| 0 <= k < i ==> entry_names(self.0@)[k] != name@);
                    match find_entry(self.0@, name@) {
                        Option::Some(j) => {
                            assert(entry_names(self.0@)[j] == name@);
                            assert(j == i as int);
                        },
                        Option::None => {
                            assert(entry_names(self.0@)[i as int] != name@);
                        },
                    }
                }
                return Some(&self.0[i].1);
            }
            i = i + 1;
        }
        proof {
            crate::text::lemma_find_name(entry_names(self.0@), name@);
            assert(forall|k: int| 0 <= k < self.0@.len() ==> entry_names(self.0@)[k] != name@);
            match find_entry(self.0@, name@) {
                Option::Some(j) => {
                    assert(entry_names(self.0@)[j] == name@);
                    assert(false);
                },
                Option::None => {},
            }
        }
        None
    }

    /// Every distinct tag name the list mentions, in first-mention order.
    pub fn tags(&self) -> (r: Vec<String>)
        ensures
            distinct_strings(r@),
            forall|s: Seq<char>| contains_string_spec(r@, s) <==> self.mentions(s),
    {
        let mut r: Vec<String> = Vec::new();
        let mut i: usize = 0;
        while i < self.0.len()
            invariant
                i <= self.0@.len(),
                distinct_strings(r@),
                forall|s: Seq<char>|
                    contains_string_spec(r@, s) == mentions_prefix(self.0@, i as int, s),
            decreases self.0@.len() - i,
        {
            let ghost before = r@;
            let src = &self.0[i].1;
            let ghost srcv = src@;
            proof {
                assert(srcv == self.0@[i as int].1@);
            }
            extend_unique(&mut r, src);
            let ghost after = r@;
            proof {
                assert(forall|s: Seq<char>|
                    contains_string_spec(after, s) == (contains_string_spec(before, s)
                        || contains_string_spec(srcv, s)));
                assert forall|s: Seq<char>|
                    contains_string_spec(after, s) == mentions_prefix(self.0@, i + 1, s) by {
                    assert(contains_string_spec(after, s) == (contains_string_spec(before, s)
                        || contains_string_spec(srcv, s)));
                    assert(contains_string_spec(after, s) == (contains_string_spec(before, s)
                        || contains_string_spec(self.0@[i as int].1@, s)));
                    if contains_string_spec(after, s) {
                        if contains_string_spec(before, s) {
                            let p = choose|p: int|
                                0 <= p < i && contains_string_spec(
                                    (#[trigger] self.0@[p]).1@,
                                    s,
                                );
                            assert(mentions_prefix(self.0@, i + 1, s));
                        } else {
                            assert(contains_string_spec(self.0@[i as int].1@, s));
                            assert(mentions_prefix(self.0@, i + 1, s));
                        }
                    }
                    if mentions_prefix(self.0@, i + 1, s) {
                        let p = choose|p: int|
                            0 <= p < i + 1 && contains_string_spec((#[trigger] self.0@[p]).1@, s);
                        if p < i {
                            assert(mentions_prefix(self.0@, i as int, s));
                        }
                    }
                }
            }
            i = i + 1;
        }
        proof {
            assert forall|s: Seq<char>|
                contains_string_spec(r@, s) <==> self.mentions(s) by {
                if contains_string_spec(r@, s) {
                    let p = choose|p: int|
                        0 <= p < self.0@.len() && contains_string_spec(
                            (#[trigger] self.0@[p]).1@,
                            s,
                        );
                    let q = choose|q: int|
                        0 <= q < self.0@[p].1@.len() && self.0@[p].1@[q]@ == s;
                    assert(self.mentions(s));
                }
                if self.mentions(s) {
                    let (p, q) = choose|p: int, q: int|
                        0 <= p < self.0@.len() && 0 <= q < self.0@[p].1@.len() && (
                        #[trigger] self.0@[p].1@[q])@ == s;
                    assert(contains_string_spec(self.0@[p].1@, s));
                    assert(mentions_prefix(self.0@, self.0@.len() as int, s));
                }
            }
        }
        r
    }
}



/// The numeric display key of a tag under a numerically sorted kind: tags
/// without the kind's attribute come first, then ascending attribute.
pub open spec fn tag_num_key(t: TagData, k: TagKind) -> int {
    match k {
        TagKind::ColorIdentity => match t.color_identity {
            Option::Some(c) => 1 + crate::color::spec_colors_rank(c),
            Option::None => 0,
        },
        TagKind::ManaPool => match t.mana {
            Option::Some(c) => 1 + crate::color::spec_colors_rank(c),
            Option::None => 0,
        },
        TagKind::Cost => match t.cmc {
            Option::Some(c) => 1 + c.halves as int / 2,
            Option::None => 0,
        },
        _ => 0,
    }
}

/// Whether a kind sorts its tags numerically; the remaining kinds sort
/// alphabetically by tag name.
pub open spec fn kind_sorts_numeric(k: TagKind) -> bool {
    k == TagKind::ColorIdentity || k == TagKind::ManaPool || k == TagKind::Cost
}

/// Whether a handle list is ordered as the kind displays its tags.
pub open spec fn sorted_for_kind(handles: Seq<usize>, tags: Seq<TagData>, k: TagKind) -> bool {
    if kind_sorts_numeric(k) {
        forall|p: int, q: int|
            0 <= p < q < handles.len() && handles[p] < tags.len() && handles[q] < tags.len()
                ==> tag_num_key(tags[handles[p] as int], k) <= tag_num_key(
                tags[handles[q] as int],
                k,
            )
    } else {
        forall|p: int, q: int|
            0 <= p < q < handles.len() && handles[p] < tags.len() && handles[q] < tags.len()
                ==> crate::text::lex_le(
                tags[handles[p] as int].name@,
                tags[handles[q] as int].name@,
            )
    }
}

/// The numeric display key, computed.
fn num_key_of(t: &TagData, k: TagKind) -> (r: u64)
    ensures
        r as int == tag_num_key(*t, k) || !kind_sorts_numeric(k),
{
    match k {
        TagKind::ColorIdentity => match t.color_identity {
            Some(c) => 1 + c.rank(),
            None => 0,
        },
        TagKind::ManaPool => match t.mana {
            Some(c) => 1 + c.rank(),
            None => 0,
        },
        TagKind::Cost => match t.cmc {
            Some(c) => 1 + (c.truncated() as u64),
            None => 0,
        },
        _ => 0,
    }
}

/// A key/handle pair carrying a tag's numeric display key.
spec fn pair_keyed_num(p: (u64, usize), tags: Seq<TagData>, k: TagKind) -> bool {
    p.1 < tags.len() && p.0 as int == tag_num_key(tags[p.1 as int], k)
}

/// A key/handle pair carrying a tag's name.
spec fn pair_keyed_name(p: (String, usize), tags: Seq<TagData>) -> bool {
    p.1 < tags.len() && p.0@ == tags[p.1 as int].name@
}

impl TagKind {
    /// Sorts tag handles by this kind's display key: the canonical
    /// archetype order for color-identity and mana kinds, ascending
    /// truncated cost for the cost kind, and tag name otherwise.  The
    /// result holds exactly the given handles.
    pub fn sort_tags(self, index: &TagIndex, handles: Vec<usize>) -> (r: Vec<usize>)
        requires
            forall|p: int| 0 <= p < handles@.len() ==> handles@[p] < index.entries@.len(),
        ensures
            r@.len() == handles@.len(),
            forall|h: usize| r@.contains(h) <==> handles@.contains(h),
            forall|p: int| 0 <= p < r@.len() ==> r@[p] < index.entries@.len(),
            sorted_for_kind(r@, index.entries@, self),
            (forall|x: int, y: int| 0 <= x < y < handles@.len() ==> handles@[x] != handles@[y])
                ==> (forall|p: int, q: int| 0 <= p < q < r@.len() ==> r@[p] != r@[q]),
    {
        let tags = &index.entries;
        match self {
            TagKind::ColorIdentity | TagKind::ManaPool | TagKind::Cost => {
                let mut pairs: Vec<(u64, usize)> = Vec::new();
                let mut i: usize = 0;
                while i < handles.len()
                    invariant
                        i <= handles@.len(),
                        pairs@.len() == i,
                        forall|p: int| 0 <= p < handles@.len() ==> handles@[p] < tags@.len(),
                        forall|p: int| 0 <= p < i ==> (#[trigger] pairs@[p]).1 == handles@[p],
                        forall|p: int|
                            0 <= p < i ==> pair_keyed_num(#[trigger] pairs@[p], tags@, self),
                        kind_sorts_numeric(self),
                    decreases handles@.len() - i,
                {
                    let h = handles[i];
                    let key = num_key_of(&tags[h], self);
                    pairs.push((key, h));
                    i = i + 1;
                }
                let ghost built = pairs@;
                proof {
                    assert(forall|p: int|
                        0 <= p < built.len() ==> (#[trigger] built[p]).1 == handles@[p]);
                }
                let sorted = sort_pairs_by_num(pairs);
                proof {
                    assert forall|q: int|
                        0 <= q < sorted@.len() implies pair_keyed_num(
                        #[trigger] sorted@[q],
                        tags@,
                        self,
                    ) by {
                        assert(sorted@.contains(sorted@[q]));
                        assert(built.contains(sorted@[q]));
                        let p = choose|p: int| 0 <= p < built.len() && built[p] == sorted@[q];
                        assert(pair_keyed_num(built[p], tags@, self));
                    }
                }
                let mut r: Vec<usize> = Vec::new();
                let mut j: usize = 0;
                while j < sorted.len()
                    invariant
                        j <= sorted@.len(),
                        r@.len() == j,
                        forall|p: int| 0 <= p < j ==> r@[p] == (#[trigger] sorted@[p]).1,
                    decreases sorted@.len() - j,
                {
                    let (_, h) = sorted[j];
                    r.push(h);
                    j = j + 1;
                }
                proof {
                    assert forall|h: usize| r@.contains(h) <==> handles@.contains(h) by {
                        if r@.contains(h) {
                            let q = choose|q: int| 0 <= q < r@.len() && r@[q] == h;
                            assert(sorted@[q].1 == h);
                            assert(sorted@.contains(sorted@[q]));
                            assert(built.contains(sorted@[q]));
                            let p = choose|p: int|
                                0 <= p < built.len() && built[p] == sorted@[q];
                            assert(handles@[p] == h);
                        }
                        if handles@.contains(h) {
                            let p = choose|p: int|
                                0 <= p < handles@.len() && handles@[p] == h;
                            assert(built[p].1 == h);
                            assert(built.contains(built[p]));
                            assert(sorted@.contains(built[p]));
                            let q = choose|q: int|
                                0 <= q < sorted@.len() && sorted@[q] == built[p];
                            assert(r@[q] == h);
                        }
                    }
                    assert forall|p: int| 0 <= p < r@.len() implies r@[p] < tags@.len() by {
                        assert(pair_keyed_num(sorted@[p], tags@, self));
                    }
                    assert forall|p: int, q: int|
                        0 <= p < q < r@.len() && r@[p] < tags@.len() && r@[q]
                            < tags@.len() implies tag_num_key(tags@[r@[p] as int], self)
                        <= tag_num_key(tags@[r@[q] as int], self) by {
                        assert(pair_keyed_num(sorted@[p], tags@, self));
                        assert(pair_keyed_num(sorted@[q], tags@, self));
                        assert(sorted@[p].0 <= sorted@[q].0);
                    }
                    if forall|x: int, y: int|
                        0 <= x < y < handles@.len() ==> handles@[x] != handles@[y] {
                        assert(forall|x: int, y: int|
                            0 <= x < y < built.len() ==> built[x].1 != built[y].1);
                        crate::text::lemma_paired_handles_stay_distinct(built, sorted@);
                        assert forall|p: int, q: int|
                            0 <= p < q < r@.len() implies r@[p] != r@[q] by {
                            assert(r@[p] == sorted@[p].1);
                            assert(r@[q] == sorted@[q].1);
                            assert(sorted@[p].1 != sorted@[q].1);
                        }
                    }
                }
                r
            },
            _ => {
                let mut pairs: Vec<(String, usize)> = Vec::new();
                let mut i: usize = 0;
                while i < handles.len()
                    invariant
                        i <= handles@.len(),
                        pairs@.len() == i,
                        forall|p: int| 0 <= p < handles@.len() ==> handles@[p] < tags@.len(),
                        forall|p: int| 0 <= p < i ==> (#[trigger] pairs@[p]).1 == handles@[p],
                        forall|p: int|
                            0 <= p < i ==> pair_keyed_name(#[trigger] pairs@[p], tags@),
                    decreases handles@.len() - i,
                {
                    let h = handles[i];
                    let key = tags[h].name.clone();
                    pairs.push((key, h));
                    i = i + 1;
                }
                let ghost built = pairs@;
                proof {
                    assert(forall|p: int|
                        0 <= p < built.len() ==> (#[trigger] built[p]).1 == handles@[p]);
                }
                let sorted = sort_pairs_by_name(pairs);
                proof {
                    assert forall|q: int|
                        0 <= q < sorted@.len() implies pair_keyed_name(
                        #[trigger] sorted@[q],
                        tags@,
                    ) by {
                        assert(sorted@.contains(sorted@[q]));
                        assert(built.contains(sorted@[q]));
                        let p = choose|p: int| 0 <= p < built.len() && built[p] == sorted@[q];
                        assert(pair_keyed_name(built[p], tags@));
                    }
                }
                let mut r: Vec<usize> = Vec::new();
                let mut j: usize = 0;
                while j < sorted.len()
                    invariant
                        j <= sorted@.len(),
                        r@.len() == j,
                        forall|p: int| 0 <= p < j ==> r@[p] == (#[trigger] sorted@[p]).1,
                    decreases sorted@.len() - j,
                {
                    let h = sorted[j].1;
                    r.push(h);
                    j = j + 1;
                }
                proof {
                    assert forall|h: usize| r@.contains(h) <==> handles@.contains(h) by {
                        if r@.contains(h) {
                            let q = choose|q: int| 0 <= q < r@.len() && r@[q] == h;
                            assert(sorted@[q].1 == h);
                            assert(sorted@.contains(sorted@[q]));
                            assert(built.contains(sorted@[q]));
                            let p = choose|p: int|
                                0 <= p < built.len() && built[p] == sorted@[q];
                            assert(handles@[p] == h);
                        }
                        if handles@.contains(h) {
                            let p = choose|p: int|
                                0 <= p < handles@.len() && handles@[p] == h;
                            assert(built[p].1 == h);
                            assert(built.contains(built[p]));
                            assert(sorted@.contains(built[p]));
                            let q = choose|q: int|
                                0 <= q < sorted@.len() && sorted@[q] == built[p];
                            assert(r@[q] == h);
                        }
                    }
                    assert forall|p: int| 0 <= p < r@.len() implies r@[p] < tags@.len() by {
                        assert(pair_keyed_name(sorted@[p], tags@));
                    }
                    assert forall|p: int, q: int|
                        0 <= p < q < r@.len() && r@[p] < tags@.len() && r@[q]
                            < tags@.len() implies crate::text::lex_le(
                        tags@[r@[p] as int].name@,
                        tags@[r@[q] as int].name@,
                    ) by {
                        assert(pair_keyed_name(sorted@[p], tags@));
                        assert(pair_keyed_name(sorted@[q], tags@));
                        assert(crate::text::lex_le(sorted@[p].0@, sorted@[q].0@));
                    }
                    if forall|x: int, y: int|
                        0 <= x < y < handles@.len() ==> handles@[x] != handles@[y] {
                        assert(forall|x: int, y: int|
                            0 <= x < y < built.len() ==> built[x].1 != built[y].1);
                        crate::text::lemma_paired_handles_stay_distinct(built, sorted@);
                        assert forall|p: int, q: int|
                            0 <= p < q < r@.len() implies r@[p] != r@[q] by {
                            assert(r@[p] == sorted@[p].1);
                            assert(r@[q] == sorted@[q].1);
                            assert(sorted@[p].1 != sorted@[q].1);
                        }
                    }
                }
                r
            },
        }
    }
}

/// What one kind's display list holds: exactly the handles of that kind's
/// tags, in the kind's display order.
pub open spec fn kind_list_ok(l: Seq<usize>, tags: Seq<TagData>, k: TagKind) -> bool {
    &&& (forall|p: int| 0 <= p < l.len() ==> l[p] < tags.len() && tags[l[p] as int].kind == k)
    &&& (forall|t: usize| t < tags.len() && tags[t as int].kind == k ==> l.contains(t))
    &&& (forall|p: int, q: int| 0 <= p < q < l.len() ==> l[p] != l[q])
    &&& sorted_for_kind(l, tags, k)
}

/// The kind at one position of the fixed display order of kinds.
pub open spec fn kind_of_rank(i: int) -> TagKind {
    if i == 0 {
        TagKind::ColorIdentity
    } else if i == 1 {
        TagKind::ManaPool
    } else if i == 2 {
        TagKind::Cost
    } else if i == 3 {
        TagKind::TypeLine
    } else if i == 4 {
        TagKind::Format
    } else {
        TagKind::Other
    }
}

/// The handles of all tags of one kind, in index order.
fn collect_kind(index: &TagIndex, k: TagKind) -> (r: Vec<usize>)
    ensures
        forall|p: int| 0 <= p < r@.len() ==> r@[p] < index.entries@.len(),
        forall|p: int|
            0 <= p < r@.len() ==> index.entries@[(#[trigger] r@[p]) as int].kind == k,
        forall|t: usize| t < index.entries@.len() && index.entries@[t as int].kind == k
            ==> r@.contains(t),
        forall|p: int, q: int| 0 <= p < q < r@.len() ==> r@[p] < r@[q],
{
    let mut r: Vec<usize> = Vec::new();
    let mut i: usize = 0;
    while i < index.entries.len()
        invariant
            i <= index.entries@.len(),
            forall|p: int| 0 <= p < r@.len() ==> r@[p] < index.entries@.len(),
            forall|p: int|
                0 <= p < r@.len() ==> index.entries@[(#[trigger] r@[p]) as int].kind == k,
            forall|t: usize| t < i && index.entries@[t as int].kind == k ==> r@.contains(t),
            forall|p: int, q: int| 0 <= p < q < r@.len() ==> r@[p] < r@[q],
            forall|p: int| 0 <= p < r@.len() ==> r@[p] < i,
        decreases index.entries@.len() - i,
    {
        let ghost pre = r@;
        if index.entries[i].kind == k {
            r.push(i);
            proof {
                assert forall|t: usize| t < i + 1 && index.entries@[t as int].kind
                    == k implies r@.contains(t) by {
                    if t < i {
                        assert(pre.contains(t));
                        let p = choose|p: int| 0 <= p < pre.len() && pre[p] == t;
                        assert(r@[p] == t);
                    } else {
                        assert(r@[r@.len() - 1] == t);
                    }
                }
            }
        } else {
            proof {
                assert forall|t: usize| t < i + 1 && index.entries@[t as int].kind
                    == k implies r@.contains(t) by {
                    assert(t != i);
                    assert(pre.contains(t));
                    let p = choose|p: int| 0 <= p < pre.len() && pre[p] == t;
                    assert(r@[p] == t);
                }
            }
        }
        i = i + 1;
    }
    r
}

/// Tags grouped by kind for display: one handle list per kind, each in
/// its kind's display order, independent of any card classification.
pub struct TagDb {
    /// The per-kind handle lists, positioned by kind rank.
    pub kind_lists: Vec<Vec<usize>>,
}

/// Collects and sorts the display list of one kind.
fn build_kind_list(index: &TagIndex, k: TagKind) -> (r: Vec<usize>)
    ensures
        kind_list_ok(r@, index.entries@, k),
{
    let collected = collect_kind(index, k);
    let r = k.sort_tags(index, collected);
    proof {
        assert forall|p: int| 0 <= p < r@.len() implies r@[p] < index.entries@.len()
            && index.entries@[(#[trigger] r@[p]) as int].kind == k by {
            assert(r@.contains(r@[p]));
            assert(collected@.contains(r@[p]));
            let q = choose|q: int| 0 <= q < collected@.len() && collected@[q] == r@[p];
            assert(index.entries@[collected@[q] as int].kind == k);
        }
        assert forall|t: usize| t < index.entries@.len() && index.entries@[t as int].kind
            == k implies r@.contains(t) by {
            assert(collected@.contains(t));
        }
    }
    r
}

impl TagDb {
    /// Groups the index's tags by kind and sorts each group by its kind's
    /// display key.
    pub fn new(index: &TagIndex) -> (r: TagDb)
        ensures
            r.kind_lists@.len() == 6,
            forall|i: int|
                0 <= i < 6 ==> kind_list_ok(
                (#[trigger] r.kind_lists@[i])@,
                index.entries@,
                kind_of_rank(i),
            ),
    {
        let mut kind_lists: Vec<Vec<usize>> = Vec::new();
        kind_lists.push(build_kind_list(index, TagKind::ColorIdentity));
        kind_lists.push(build_kind_list(index, TagKind::ManaPool));
        kind_lists.push(build_kind_list(index, TagKind::Cost));
        kind_lists.push(build_kind_list(index, TagKind::TypeLine));
        kind_lists.push(build_kind_list(index, TagKind::Format));
        kind_lists.push(build_kind_list(index, TagKind::Other));
        proof {
            assert forall|i: int| 0 <= i < 6 implies kind_list_ok(
                (#[trigger] kind_lists@[i])@,
                index.entries@,
                kind_of_rank(i),
            ) by {
                if i == 0 {
                    assert(kind_of_rank(0) == TagKind::ColorIdentity);
                } else if i == 1 {
                    assert(kind_of_rank(1) == TagKind::ManaPool);
                } else if i == 2 {
                    assert(kind_of_rank(2) == TagKind::Cost);
                } else if i == 3 {
                    assert(kind_of_rank(3) == TagKind::TypeLine);
                } else if i == 4 {
                    assert(kind_of_rank(4) == TagKind::Format);
                } else {
                    assert(kind_of_rank(5) == TagKind::Other);
                }
            }
        }
        TagDb { kind_lists }
    }

    /// The per-kind display lists.
    pub fn kind_index(&self) -> (r: &Vec<Vec<usize>>)
        ensures
            r == &self.kind_lists,
    {
        &self.kind_lists
    }
}

} // verus!
