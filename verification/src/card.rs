//! The classification engine.  Every card of the snapshot is evaluated
//! against every tag's conditions; matching tags and their categories are
//! accumulated, the categories' implicit type-line filters and the manual
//! override list are applied, and a card with no category is dropped from
//! every output.  The retained cards and the tag, category and type
//! cross-reference indexes are built in one pass.

use crate::scryfall::{Card, CardFace, CardList};
use crate::tags::{
    cond_matches, entry_names, find_entry, spec_display_name, tag_matches, CardTags, Category,
    TagData, TagIndex, TagKind,
};
use crate::text::{
    contains_handle, contains_string, contains_string_spec, contains_sub, join_seqs, join_strs,
    lex_le, sort_pairs_by_name, str_contains, str_eq, views_of,
};
use vstd::prelude::*;

verus! {

/// One of the primary card types, read from a type line.
#[derive(Debug, Clone, Copy, PartialEq, Eq, Structural, Hash)]
pub enum CardType {
    Land,
    Artifact,
    Creature,
    Enchantment,
    Instant,
    Sorcery,
    Planeswalker,
}

/// The position of one card type in the fixed display order.
pub open spec fn spec_type_rank(t: CardType) -> int {
    match t {
        CardType::Land => 0,
        CardType::Artifact => 1,
        CardType::Creature => 2,
        CardType::Enchantment => 3,
        CardType::Instant => 4,
        CardType::Sorcery => 5,
        CardType::Planeswalker => 6,
    }
}

/// The card type at one position of the fixed order.
pub open spec fn spec_type_of_rank(i: int) -> CardType {
    if i == 0 {
        CardType::Land
    } else if i == 1 {
        CardType::Artifact
    } else if i == 2 {
        CardType::Creature
    } else if i == 3 {
        CardType::Enchantment
    } else if i == 4 {
        CardType::Instant
    } else if i == 5 {
        CardType::Sorcery
    } else {
        CardType::Planeswalker
    }
}

/// The token whose presence in a type line marks one card type.
pub open spec fn spec_type_token(t: CardType) -> Seq<char> {
    match t {
        CardType::Land => "Land"@,
        CardType::Artifact => "Artifact"@,
        CardType::Creature => "Creature"@,
        CardType::Enchantment => "Enchantment"@,
        CardType::Instant => "Instant"@,
        CardType::Sorcery => "Sorcery"@,
        CardType::Planeswalker => "Planeswalker"@,
    }
}

/// Whether a type line carries one card type.
pub open spec fn has_card_type(tl: Seq<char>, t: CardType) -> bool {
    contains_sub(tl, spec_type_token(t))
}

impl CardType {
    /// The card type at one position of the fixed order.
    pub fn of_rank(i: usize) -> (r: CardType)
        requires
            i < 7,
        ensures
            r == spec_type_of_rank(i as int),
            spec_type_rank(r) == i as int,
    {
        if i == 0 {
            CardType::Land
        } else if i == 1 {
            CardType::Artifact
        } else if i == 2 {
            CardType::Creature
        } else if i == 3 {
            CardType::Enchantment
        } else if i == 4 {
            CardType::Instant
        } else if i == 5 {
            CardType::Sorcery
        } else {
            CardType::Planeswalker
        }
    }

    /// The token marking this card type in a type line.
    pub fn token(self) -> (r: &'static str)
        ensures
            r@ == spec_type_token(self),
    {
        match self {
            CardType::Land => "Land",
            CardType::Artifact => "Artifact",
            CardType::Creature => "Creature",
            CardType::Enchantment => "Enchantment",
            CardType::Instant => "Instant",
            CardType::Sorcery => "Sorcery",
            CardType::Planeswalker => "Planeswalker",
        }
    }

    /// The card types whose tokens occur in a type line, in display
    /// order, each at most once.
    pub fn from_str(type_line: &str) -> (r: Vec<CardType>)
        ensures
            forall|t: CardType| r@.contains(t) <==> has_card_type(type_line@, t),
            forall|p: int, q: int|
                0 <= p < q < r@.len() ==> spec_type_rank(r@[p]) < spec_type_rank(r@[q]),
    {
        let mut r: Vec<CardType> = Vec::new();
        let mut i: usize = 0;
        while i < 7
            invariant
                i <= 7,
                forall|t: CardType|
                    r@.contains(t) <==> (has_card_type(type_line@, t) && spec_type_rank(t)
                        < i as int),
                forall|p: int, q: int|
                    0 <= p < q < r@.len() ==> spec_type_rank(r@[p]) < spec_type_rank(r@[q]),
                forall|p: int| 0 <= p < r@.len() ==> spec_type_rank(r@[p]) < i as int,
            decreases 7 - i,
        {
            let ghost pre = r@;
            let t = CardType::of_rank(i);
            if str_contains(type_line, t.token()) {
                r.push(t);
            }
            proof {
                assert forall|u: CardType|
                    r@.contains(u) <==> (has_card_type(type_line@, u) && spec_type_rank(u) < i
                        + 1) by {
                    if r@.contains(u) {
                        let p = choose|p: int| 0 <= p < r@.len() && r@[p] == u;
                        if p < pre.len() {
                            assert(pre.contains(u));
                        } else {
                            assert(u == t);
                        }
                    }
                    if has_card_type(type_line@, u) && spec_type_rank(u) < i + 1 {
                        if spec_type_rank(u) < i as int {
                            assert(pre.contains(u));
                            let p = choose|p: int| 0 <= p < pre.len() && pre[p] == u;
                            assert(r@[p] == u);
                        } else {
                            assert(u == t);
                            assert(r@[r@.len() - 1] == t);
                        }
                    }
                }
            }
            i = i + 1;
        }
        r
    }

    /// The page address for this card type's tag-grouped page.
    pub fn base_uri(self) -> (r: &'static str)
        ensures
            r@ == spec_type_base_uri(self),
    {
        match self {
            CardType::Land => "lands.html",
            CardType::Artifact => "artifacts.html",
            CardType::Creature => "creatures.html",
            CardType::Enchantment => "enchantments.html",
            CardType::Instant => "instants.html",
            CardType::Sorcery => "sorceries.html",
            CardType::Planeswalker => "planeswalkers.html",
        }
    }

    /// The filter class attached to cards of this type.
    pub fn filter_class(self) -> (r: &'static str)
        ensures
            r@ == spec_type_filter_class(self),
    {
        match self {
            CardType::Land => "mtg-filter-land",
            CardType::Artifact => "mtg-filter-artifact",
            CardType::Creature => "mtg-filter-creature",
            CardType::Enchantment => "mtg-filter-enchantment",
            CardType::Instant => "mtg-filter-instant",
            CardType::Sorcery => "mtg-filter-sorcery",
            CardType::Planeswalker => "mtg-filter-planeswalker",
        }
    }

    /// The query string showing only this card type.
    pub fn show_only_filter_query(self) -> (r: &'static str)
        ensures
            r@ == spec_show_only_filter_query(self),
    {
        match self {
            CardType::Land => "show=land&amp;hide=artifact&amp;hide=creature&amp;hide=enchantment&amp;hide=instant&amp;hide=sorcery&amp;hide=planeswalker",
            CardType::Artifact => "show=artifact&amp;hide=land&amp;hide=creature&amp;hide=enchantment&amp;hide=instant&amp;hide=sorcery&amp;hide=planeswalker",
            CardType::Creature => "show=creature&amp;hide=land&amp;hide=artifact&amp;hide=enchantment&amp;hide=instant&amp;hide=sorcery&amp;hide=planeswalker",
            CardType::Enchantment => "show=enchantment&amp;hide=land&amp;hide=artifact&amp;hide=creature&amp;hide=instant&amp;hide=sorcery&amp;hide=planeswalker",
            CardType::Instant => "show=instant&amp;hide=land&amp;hide=artifact&amp;hide=creature&amp;hide=enchantment&amp;hide=sorcery&amp;hide=planeswalker",
            CardType::Sorcery => "show=sorcery&amp;hide=land&amp;hide=artifact&amp;hide=creature&amp;hide=enchantment&amp;hide=instant&amp;hide=planeswalker",
            CardType::Planeswalker => "show=planeswalker&amp;hide=land&amp;hide=artifact&amp;hide=creature&amp;hide=enchantment&amp;hide=instant&amp;hide=sorcery",
        }
    }

    /// The display name of this card type.
    pub fn name(self) -> (r: &'static str)
        ensures
            r@ == spec_type_token(self),
    {
        self.token()
    }
}

/// The page address of one card type.
pub open spec fn spec_type_base_uri(t: CardType) -> Seq<char> {
    match t {
        CardType::Land => "lands.html"@,
        CardType::Artifact => "artifacts.html"@,
        CardType::Creature => "creatures.html"@,
        CardType::Enchantment => "enchantments.html"@,
        CardType::Instant => "instants.html"@,
        CardType::Sorcery => "sorceries.html"@,
        CardType::Planeswalker => "planeswalkers.html"@,
    }
}

/// The filter class of one card type.
pub open spec fn spec_type_filter_class(t: CardType) -> Seq<char> {
    match t {
        CardType::Land => "mtg-filter-land"@,
        CardType::Artifact => "mtg-filter-artifact"@,
        CardType::Creature => "mtg-filter-creature"@,
        CardType::Enchantment => "mtg-filter-enchantment"@,
        CardType::Instant => "mtg-filter-instant"@,
        CardType::Sorcery => "mtg-filter-sorcery"@,
        CardType::Planeswalker => "mtg-filter-planeswalker"@,
    }
}

/// The show-only query of one card type.
pub open spec fn spec_show_only_filter_query(t: CardType) -> Seq<char> {
    match t {
        CardType::Land => "show=land&amp;hide=artifact&amp;hide=creature&amp;hide=enchantment&amp;hide=instant&amp;hide=sorcery&amp;hide=planeswalker"@,
        CardType::Artifact => "show=artifact&amp;hide=land&amp;hide=creature&amp;hide=enchantment&amp;hide=instant&amp;hide=sorcery&amp;hide=planeswalker"@,
        CardType::Creature => "show=creature&amp;hide=land&amp;hide=artifact&amp;hide=enchantment&amp;hide=instant&amp;hide=sorcery&amp;hide=planeswalker"@,
        CardType::Enchantment => "show=enchantment&amp;hide=land&amp;hide=artifact&amp;hide=creature&amp;hide=instant&amp;hide=sorcery&amp;hide=planeswalker"@,
        CardType::Instant => "show=instant&amp;hide=land&amp;hide=artifact&amp;hide=creature&amp;hide=enchantment&amp;hide=sorcery&amp;hide=planeswalker"@,
        CardType::Sorcery => "show=sorcery&amp;hide=land&amp;hide=artifact&amp;hide=creature&amp;hide=enchantment&amp;hide=instant&amp;hide=planeswalker"@,
        CardType::Planeswalker => "show=planeswalker&amp;hide=land&amp;hide=artifact&amp;hide=creature&amp;hide=enchantment&amp;hide=instant&amp;hide=sorcery"@,
    }
}

/// A card's stable identifier, held as an owned value and compared by its
/// characters.
#[derive(Debug)]
pub struct CardId(pub String);

impl CardId {
    /// Wraps an identifier.
    pub fn new(id: &str) -> (r: CardId)
        ensures
            r.0@ == id@,
    {
        CardId(id.to_owned())
    }
}

/// The present type lines of a card's faces, in face order.
pub open spec fn face_type_parts(faces: Seq<CardFace>) -> Seq<Seq<char>>
    decreases faces.len(),
{
    if faces.len() == 0 {
        seq![]
    } else {
        (match faces[0].type_line {
            Option::Some(t) => seq![t@],
            Option::None => seq![],
        }) + face_type_parts(faces.drop_first())
    }
}

/// One more face appends its type line, if it has one.
proof fn lemma_face_type_parts_push(faces: Seq<CardFace>, f: CardFace)
    ensures
        face_type_parts(faces.push(f)) == face_type_parts(faces) + (match f.type_line {
            Option::Some(t) => seq![t@],
            Option::None => seq![],
        }),
    decreases faces.len(),
{
    let tail: Seq<Seq<char>> = match f.type_line {
        Option::Some(t) => seq![t@],
        Option::None => seq![],
    };
    if faces.len() == 0 {
        assert(faces.push(f)[0] == f);
        assert(faces.push(f).drop_first() =~= Seq::<CardFace>::empty());
        assert(face_type_parts(Seq::<CardFace>::empty()) == Seq::<Seq<char>>::empty());
        assert(face_type_parts(faces.push(f)) =~= tail);
        assert(face_type_parts(faces) + tail =~= tail);
    } else {
        assert(faces.push(f)[0] == faces[0]);
        assert(faces.push(f).drop_first() =~= faces.drop_first().push(f));
        lemma_face_type_parts_push(faces.drop_first(), f);
        let head: Seq<Seq<char>> = match faces[0].type_line {
            Option::Some(t) => seq![t@],
            Option::None => seq![],
        };
        assert(face_type_parts(faces.push(f)) == head + (face_type_parts(faces.drop_first())
            + tail));
        assert(head + (face_type_parts(faces.drop_first()) + tail) =~= (head + face_type_parts(
            faces.drop_first(),
        )) + tail);
    }
}

/// The pieces joined into a card's combined type line: the card's own
/// type line, then each face's, as far as they are present.
pub open spec fn type_line_parts(card: Card) -> Seq<Seq<char>> {
    (match card.type_line {
        Option::Some(t) => seq![t@],
        Option::None => seq![],
    }) + face_type_parts(card.card_faces@)
}

/// The combined type line a card is typed by: its own and its faces' type
/// lines joined with spaces.
pub open spec fn combined_type_line_spec(card: Card) -> Seq<char> {
    join_seqs(type_line_parts(card), " "@)
}

/// Joins a card's own and its faces' type lines with spaces.
pub fn combined_type_line(card: &Card) -> (r: String)
    ensures
        r@ == combined_type_line_spec(*card),
{
    let mut parts: Vec<String> = Vec::new();
    match &card.type_line {
        Some(t) => {
            parts.push(t.clone());
        },
        None => {},
    }
    let ghost head = views_of(parts@);
    proof {
        assert(head =~= (match card.type_line {
            Option::Some(t) => seq![t@],
            Option::None => seq![],
        }));
    }
    let mut i: usize = 0;
    while i < card.card_faces.len()
        invariant
            i <= card.card_faces@.len(),
            head == (match card.type_line {
                Option::Some(t) => seq![t@],
                Option::None => seq![],
            }),
            views_of(parts@) == head + face_type_parts(card.card_faces@.take(i as int)),
        decreases card.card_faces@.len() - i,
    {
        let ghost pre = parts@;
        match &card.card_faces[i].type_line {
            Some(t) => {
                parts.push(t.clone());
                proof {
                    assert(views_of(parts@) =~= views_of(pre).push(t@));
                }
            },
            None => {},
        }
        proof {
            lemma_face_type_parts_push(
                card.card_faces@.take(i as int),
                card.card_faces@[i as int],
            );
            assert(card.card_faces@.take(i as int).push(card.card_faces@[i as int])
                =~= card.card_faces@.take(i + 1));
            assert(views_of(parts@) =~= head + face_type_parts(card.card_faces@.take(i + 1)));
        }
        i = i + 1;
    }
    proof {
        assert(card.card_faces@.take(card.card_faces@.len() as int) =~= card.card_faces@);
    }
    join_strs(&parts, " ")
}

/// The back image a classified card displays: present only when the card
/// has no card-level image and its second face carries one, the mark of a
/// genuine two-sided layout.
pub open spec fn back_image_spec(card: Card) -> Option<Seq<char>> {
    if card.image_uri is None && card.card_faces@.len() >= 2 && card.card_faces@[1].image_uri
        is Some {
        Option::Some(card.card_faces@[1].image_uri->0@)
    } else {
        Option::None
    }
}

/// The front image a classified card displays: the first face's image for
/// two-sided layouts, else the card-level image, else empty.
pub open spec fn front_image_spec(card: Card) -> Seq<char> {
    if back_image_spec(card) is Some {
        match card.card_faces@[0].image_uri {
            Option::Some(u) => u@,
            Option::None => Seq::<char>::empty(),
        }
    } else {
        match card.image_uri {
            Option::Some(u) => u@,
            Option::None => Seq::<char>::empty(),
        }
    }
}


/// The manually curated category list: each entry pairs a card name with
/// category names the card belongs to outright, independent of rule
/// matching.
pub struct CategoryOverrides(pub Vec<(String, Vec<String>)>);

impl CategoryOverrides {
    /// Whether the list assigns the named category to the named card.
    pub open spec fn assigns(self, card_name: Seq<char>, cat_name: Seq<char>) -> bool {
        match find_entry(self.0@, card_name) {
            Option::Some(i) => contains_string_spec(self.0@[i].1@, cat_name),
            Option::None => false,
        }
    }

    /// The category names listed for a card, if the card is listed.
    pub fn get(&self, name: &str) -> (r: Option<&Vec<String>>)
        ensures
            match find_entry(self.0@, name@) {
                Option::Some(i) => r matches Option::Some(v) && v@ == self.0@[i].1@,
                Option::None => r is None,
            },
    {
        let mut i: usize = 0;
        while i < self.0.len()
            invariant
                i <= self.0@.len(),
                forall|k: int| 0 <= k < i ==> self.0@[k].0@ != name@,
            decreases self.0@.len() - i,
        {
            if str_eq(self.0[i].0.as_str(), name) {
                proof {
                    crate::text::lemma_find_name(entry_names(self.0@), name@);
                    assert(entry_names(self.0@)[i as int] == name@);
                    assert(forall|k: int| 0 <= k < i ==> entry_names(self.0@)[k] != name@);
                    match find_entry(self.0@, name@) {
                        Option::Some(j) => {
                            assert(entry_names(self.0@)[j] == name@);
                            assert(j == i as int);
                        },
                        Option::None => {
                            assert(entry_names(self.0@)[i as int] != name@);
                        },
                    }
                }
                return Some(&self.0[i].1);
            }
            i = i + 1;
        }
        proof {
            crate::text::lemma_find_name(entry_names(self.0@), name@);
            assert(forall|k: int| 0 <= k < self.0@.len() ==> entry_names(self.0@)[k] != name@);
            match find_entry(self.0@, name@) {
                Option::Some(j) => {
                    assert(entry_names(self.0@)[j] == name@);
                    assert(false);
                },
                Option::None => {},
            }
        }
        None
    }
}

/// Whether the curated tag list names the tag for the card.
pub open spec fn curated_tag(curated: CardTags, card: Card, t: TagData) -> bool {
    match find_entry(curated.0@, card.name@) {
        Option::Some(i) => contains_string_spec(curated.0@[i].1@, t.name@),
        Option::None => false,
    }
}

/// Whether the card earns tag handle `t`: one of the tag's conditions
/// matches it, or the curated list names the tag for it.
pub open spec fn card_has_tag(
    tags: Seq<TagData>,
    card: Card,
    cats: Seq<Category>,
    curated: CardTags,
    t: usize,
) -> bool {
    t < tags.len() && (tag_matches(tags[t as int], card, cats) || curated_tag(
        curated,
        card,
        tags[t as int],
    ))
}

/// Whether some tag condition that assigns category `ci` matches the
/// card.
pub open spec fn matched_category(
    tags: Seq<TagData>,
    card: Card,
    cats: Seq<Category>,
    ci: usize,
) -> bool {
    exists|t: int, j: int|
        0 <= t < tags.len() && 0 <= j < tags[t].conditions@.len() && cond_matches(
            #[trigger] tags[t].conditions@[j],
            card,
            cats,
        ) && tags[t].conditions@[j].category == Option::<usize>::Some(ci)
}

/// The same, over the first `t_hi` tags only.
pub open spec fn matched_category_upto(
    tags: Seq<TagData>,
    card: Card,
    cats: Seq<Category>,
    t_hi: int,
    ci: usize,
) -> bool {
    exists|t: int, j: int|
        0 <= t < t_hi && t < tags.len() && 0 <= j < tags[t].conditions@.len() && cond_matches(
            #[trigger] tags[t].conditions@[j],
            card,
            cats,
        ) && tags[t].conditions@[j].category == Option::<usize>::Some(ci)
}

/// The same, over the first `j_hi` conditions of one tag.
pub open spec fn matched_category_in_tag(
    tag: TagData,
    card: Card,
    cats: Seq<Category>,
    j_hi: int,
    ci: usize,
) -> bool {
    exists|j: int|
        0 <= j < j_hi && j < tag.conditions@.len() && cond_matches(
            #[trigger] tag.conditions@[j],
            card,
            cats,
        ) && tag.conditions@[j].category == Option::<usize>::Some(ci)
}

/// Whether the category's mandatory type-line filter retains the card by
/// itself, judged against the card's combined type line.
pub open spec fn implicit_category(card: Card, cats: Seq<Category>, ci: usize) -> bool {
    ci < cats.len() && match cats[ci as int].type_filter {
        Option::Some(re) => crate::pattern::regex_match(
            re.pattern_view(),
            combined_type_line_spec(card),
        ),
        Option::None => false,
    }
}

/// Whether the card earns category handle `ci`: a matching condition
/// assigns it, the category's implicit filter accepts the card, or the
/// manual override list assigns it.  All three routes are additive.
pub open spec fn card_has_category(
    tags: Seq<TagData>,
    card: Card,
    cats: Seq<Category>,
    overrides: CategoryOverrides,
    ci: usize,
) -> bool {
    ci < cats.len() && (matched_category(tags, card, cats, ci) || implicit_category(
        card,
        cats,
        ci,
    ) || overrides.assigns(card.name@, cats[ci as int].name@))
}

/// Whether the card is retained: it earns at least one category.  A card
/// matching zero categories is excluded from every output.
pub open spec fn spec_retained(
    tags: Seq<TagData>,
    card: Card,
    cats: Seq<Category>,
    overrides: CategoryOverrides,
) -> bool {
    exists|ci: usize| #[trigger] card_has_category(tags, card, cats, overrides, ci)
}

/// One retained card with everything the classification pass resolved
/// for it.
pub struct TaggedCard {
    /// The position of the card in the input snapshot.
    pub card: usize,
    /// The card's stable identifier.
    pub id: CardId,
    /// The card's display name.
    pub name: String,
    /// Handles of the tags the card earned.
    pub tags: Vec<usize>,
    /// The card types read from the combined type line, in display order.
    pub types: Vec<CardType>,
    /// Handles of the categories the card earned; never empty.
    pub categories: Vec<usize>,
    /// The front image to display.
    pub front_image_uri: String,
    /// The back image, present only for genuine two-sided layouts.
    pub back_image_uri: Option<String>,
}

/// What a classified card holds for the source card at position `i`.
pub open spec fn tagged_card_ok(
    tc: TaggedCard,
    i: int,
    card: Card,
    tags: Seq<TagData>,
    cats: Seq<Category>,
    curated: CardTags,
    overrides: CategoryOverrides,
) -> bool {
    &&& tc.card == i
    &&& tc.id.0@ == card.id@
    &&& tc.name@ == card.name@
    &&& (forall|t: usize| tc.tags@.contains(t) <==> card_has_tag(tags, card, cats, curated, t))
    &&& (forall|ci: usize|
        tc.categories@.contains(ci) <==> card_has_category(tags, card, cats, overrides, ci))
    &&& (forall|p: int, q: int| 0 <= p < q < tc.tags@.len() ==> tc.tags@[p] < tc.tags@[q])
    &&& (forall|p: int, q: int|
        0 <= p < q < tc.categories@.len() ==> tc.categories@[p] != tc.categories@[q])
    &&& tc.categories@.len() > 0
    &&& (forall|ty: CardType|
        tc.types@.contains(ty) <==> has_card_type(combined_type_line_spec(card), ty))
    &&& (forall|p: int, q: int|
        0 <= p < q < tc.types@.len() ==> spec_type_rank(tc.types@[p]) < spec_type_rank(
            tc.types@[q],
        ))
    &&& tc.front_image_uri@ == front_image_spec(card)
    &&& (match back_image_spec(card) {
        Option::Some(u) => tc.back_image_uri matches Option::Some(b) && b@ == u,
        Option::None => tc.back_image_uri is None,
    })
}

/// Classifies one card: evaluates every tag and condition, applies the
/// implicit category filters and the manual overrides, and keeps the card
/// only if it earned a category.
pub fn classify_card(
    i: usize,
    card: &Card,
    index: &TagIndex,
    cats: &Vec<Category>,
    curated: &CardTags,
    overrides: &CategoryOverrides,
) -> (r: Option<TaggedCard>)
    requires
        card.wf(),
    ensures
        match r {
            Option::Some(tc) => spec_retained(index.entries@, *card, cats@, *overrides)
                && tagged_card_ok(
                tc,
                i as int,
                *card,
                index.entries@,
                cats@,
                *curated,
                *overrides,
            ),
            Option::None => !spec_retained(index.entries@, *card, cats@, *overrides),
        },
{
    let tl = combined_type_line(card);
    let types = CardType::from_str(tl.as_str());
    let cur_list = curated.get_tags(card.name.as_str());
    let mut tag_handles: Vec<usize> = Vec::new();
    let mut cat_handles: Vec<usize> = Vec::new();
    let mut t: usize = 0;
    while t < index.entries.len()
        invariant
            t <= index.entries@.len(),
            card.wf(),
            tl@ == combined_type_line_spec(*card),
            (match find_entry(curated.0@, card.name@) {
                Option::Some(e) => cur_list matches Option::Some(v) && v@ == curated.0@[e].1@,
                Option::None => cur_list is None,
            }),
            forall|h: usize| #![all_triggers]
                tag_handles@.contains(h) <==> (h < t && card_has_tag(
                    index.entries@,
                    *card,
                    cats@,
                    *curated,
                    h,
                )),
            forall|p: int, q: int|
                0 <= p < q < tag_handles@.len() ==> tag_handles@[p] < tag_handles@[q],
            forall|p: int| 0 <= p < tag_handles@.len() ==> tag_handles@[p] < t,
            forall|ci: usize| #![all_triggers]
                cat_handles@.contains(ci) <==> matched_category_upto(
                    index.entries@,
                    *card,
                    cats@,
                    t as int,
                    ci,
                ),
            forall|ci: usize| cat_handles@.contains(ci) ==> ci < cats@.len(),
            forall|p: int, q: int|
                0 <= p < q < cat_handles@.len() ==> cat_handles@[p] != cat_handles@[q],
        decreases index.entries@.len() - t,
    {
        let tag_ref = &index.entries[t];
        let mut matched = false;
        let mut j: usize = 0;
        while j < tag_ref.conditions.len()
            invariant
                j <= tag_ref.conditions@.len(),
                card.wf(),
                t < index.entries@.len(),
                *tag_ref == index.entries@[t as int],
                matched <==> matched_category_in_tag_any(*tag_ref, *card, cats@, j as int),
                forall|ci: usize| #![all_triggers]
                    cat_handles@.contains(ci) <==> (matched_category_upto(
                        index.entries@,
                        *card,
                        cats@,
                        t as int,
                        ci,
                    ) || matched_category_in_tag(*tag_ref, *card, cats@, j as int, ci)),
                forall|ci: usize| cat_handles@.contains(ci) ==> ci < cats@.len(),
                forall|p: int, q: int|
                    0 <= p < q < cat_handles@.len() ==> cat_handles@[p] != cat_handles@[q],
            decreases tag_ref.conditions@.len() - j,
        {
            let ghost pre = cat_handles@;
            if tag_ref.conditions[j].matches(card, cats) {
                matched = true;
                match tag_ref.conditions[j].category {
                    Some(ci) => {
                        proof {
                            assert(ci < cats@.len());
                        }
                        crate::text::push_unique_handle(&mut cat_handles, ci);
                        proof {
                            assert forall|c: usize| #![all_triggers]
                                cat_handles@.contains(c) <==> (matched_category_upto(
                                    index.entries@,
                                    *card,
                                    cats@,
                                    t as int,
                                    c,
                                ) || matched_category_in_tag(
                                    *tag_ref,
                                    *card,
                                    cats@,
                                    j + 1,
                                    c,
                                )) by {
                                if matched_category_in_tag(*tag_ref, *card, cats@, j + 1, c) {
                                    let w = choose|w: int|
                                        0 <= w < j + 1 && w < tag_ref.conditions@.len()
                                            && cond_matches(
                                            #[trigger] tag_ref.conditions@[w],
                                            *card,
                                            cats@,
                                        ) && tag_ref.conditions@[w].category
                                            == Option::<usize>::Some(c);
                                    if w < j {
                                        assert(matched_category_in_tag(
                                            *tag_ref,
                                            *card,
                                            cats@,
                                            j as int,
                                            c,
                                        ));
                                    } else {
                                        assert(c == ci);
                                    }
                                }
                            }
                        }
                    },
                    None => {
                        proof {
                            assert forall|c: usize| #![all_triggers]
                                cat_handles@.contains(c) <==> (matched_category_upto(
                                    index.entries@,
                                    *card,
                                    cats@,
                                    t as int,
                                    c,
                                ) || matched_category_in_tag(
                                    *tag_ref,
                                    *card,
                                    cats@,
                                    j + 1,
                                    c,
                                )) by {
                                if matched_category_in_tag(*tag_ref, *card, cats@, j + 1, c) {
                                    let w = choose|w: int|
                                        0 <= w < j + 1 && w < tag_ref.conditions@.len()
                                            && cond_matches(
                                            #[trigger] tag_ref.conditions@[w],
                                            *card,
                                            cats@,
                                        ) && tag_ref.conditions@[w].category
                                            == Option::<usize>::Some(c);
                                    assert(w < j);
                                }
                            }
                        }
                    },
                }
            } else {
                proof {
                    assert forall|c: usize| #![all_triggers]
                        cat_handles@.contains(c) <==> (matched_category_upto(
                            index.entries@,
                            *card,
                            cats@,
                            t as int,
                            c,
                        ) || matched_category_in_tag(*tag_ref, *card, cats@, j + 1, c)) by {
                        if matched_category_in_tag(*tag_ref, *card, cats@, j + 1, c) {
                            let w = choose|w: int|
                                0 <= w < j + 1 && w < tag_ref.conditions@.len() && cond_matches(
                                    #[trigger] tag_ref.conditions@[w],
                                    *card,
                                    cats@,
                                ) && tag_ref.conditions@[w].category == Option::<usize>::Some(c);
                            assert(w < j);
                        }
                    }
                }
            }
            j = j + 1;
        }
        let curated_here = match &cur_list {
            Some(v) => contains_string(v, tag_ref.name.as_str()),
            None => false,
        };
        proof {
            assert(matched <==> tag_matches(index.entries@[t as int], *card, cats@));
            assert(curated_here <==> curated_tag(*curated, *card, index.entries@[t as int]));
        }
        let ghost pre_tags = tag_handles@;
        if matched || curated_here {
            tag_handles.push(t);
        }
        proof {
            assert forall|h: usize| #![all_triggers]
                tag_handles@.contains(h) <==> (h < t + 1 && card_has_tag(
                    index.entries@,
                    *card,
                    cats@,
                    *curated,
                    h,
                )) by {
                if tag_handles@.contains(h) {
                    let p = choose|p: int|
                        0 <= p < tag_handles@.len() && tag_handles@[p] == h;
                    if p < pre_tags.len() {
                        assert(pre_tags.contains(h));
                    } else {
                        assert(h == t);
                    }
                }
                if h < t + 1 && card_has_tag(index.entries@, *card, cats@, *curated, h) {
                    if h < t {
                        assert(pre_tags.contains(h));
                        let p = choose|p: int| 0 <= p < pre_tags.len() && pre_tags[p] == h;
                        assert(tag_handles@[p] == h);
                    } else {
                        assert(tag_handles@[tag_handles@.len() - 1] == t);
                    }
                }
            }
            assert forall|ci: usize| #![all_triggers]
                cat_handles@.contains(ci) <==> matched_category_upto(
                    index.entries@,
                    *card,
                    cats@,
                    t + 1,
                    ci,
                ) by {
                if matched_category_upto(index.entries@, *card, cats@, t + 1, ci) {
                    let (w, v) = choose|w: int, v: int|
                        0 <= w < t + 1 && w < index.entries@.len() && 0 <= v
                            < index.entries@[w].conditions@.len() && cond_matches(
                            #[trigger] index.entries@[w].conditions@[v],
                            *card,
                            cats@,
                        ) && index.entries@[w].conditions@[v].category == Option::<usize>::Some(
                            ci,
                        );
                    if w < t {
                        assert(matched_category_upto(index.entries@, *card, cats@, t as int, ci));
                    } else {
                        assert(matched_category_in_tag(
                            index.entries@[t as int],
                            *card,
                            cats@,
                            index.entries@[t as int].conditions@.len() as int,
                            ci,
                        ));
                    }
                }
            }
        }
        t = t + 1;
    }
    proof {
        assert forall|ci: usize| #![all_triggers]
            cat_handles@.contains(ci) <==> matched_category(index.entries@, *card, cats@, ci) by {
            if matched_category(index.entries@, *card, cats@, ci) {
                assert(matched_category_upto(
                    index.entries@,
                    *card,
                    cats@,
                    index.entries@.len() as int,
                    ci,
                ));
            }
            if matched_category_upto(index.entries@, *card, cats@, index.entries@.len() as int, ci) {
                assert(matched_category(index.entries@, *card, cats@, ci));
            }
        }
    }
    let ghost after_match = cat_handles@;
    let mut ci: usize = 0;
    while ci < cats.len()
        invariant
            ci <= cats@.len(),
            tl@ == combined_type_line_spec(*card),
            forall|c: usize| #![all_triggers]
                cat_handles@.contains(c) <==> (matched_category(index.entries@, *card, cats@, c)
                    || (c < ci && implicit_category(*card, cats@, c))),
            forall|c: usize| cat_handles@.contains(c) ==> c < cats@.len(),
            forall|p: int, q: int|
                0 <= p < q < cat_handles@.len() ==> cat_handles@[p] != cat_handles@[q],
        decreases cats@.len() - ci,
    {
        let ghost pre = cat_handles@;
        let mut hit = false;
        match &cats[ci].type_filter {
            Some(re) => {
                if re.is_match(tl.as_str()) {
                    hit = true;
                }
            },
            None => {},
        }
        if hit {
            proof {
                assert(implicit_category(*card, cats@, ci));
            }
            crate::text::push_unique_handle(&mut cat_handles, ci);
        }
        proof {
            assert(hit == implicit_category(*card, cats@, ci));
        }
        ci = ci + 1;
    }
    let ov_list = overrides.get(card.name.as_str());
    match &ov_list {
        Some(v) => {
            let mut c2: usize = 0;
            while c2 < cats.len()
                invariant
                    c2 <= cats@.len(),
                    (match find_entry(overrides.0@, card.name@) {
                        Option::Some(e) => ov_list matches Option::Some(vv) && vv@
                            == overrides.0@[e].1@ && v@ == overrides.0@[e].1@,
                        Option::None => false,
                    }),
                    forall|c: usize| #![all_triggers]
                        cat_handles@.contains(c) <==> (matched_category(
                            index.entries@,
                            *card,
                            cats@,
                            c,
                        ) || implicit_category(*card, cats@, c) || (c < c2
                            && c < cats@.len() && overrides.assigns(
                            card.name@,
                            cats@[c as int].name@,
                        ))),
                    forall|c: usize| cat_handles@.contains(c) ==> c < cats@.len(),
                    forall|p: int, q: int|
                        0 <= p < q < cat_handles@.len() ==> cat_handles@[p] != cat_handles@[q],
                decreases cats@.len() - c2,
            {
                if contains_string(v, cats[c2].name.as_str()) {
                    proof {
                        assert(overrides.assigns(card.name@, cats@[c2 as int].name@));
                    }
                    crate::text::push_unique_handle(&mut cat_handles, c2);
                }
                c2 = c2 + 1;
            }
        },
        None => {
            proof {
                assert(forall|c: usize|
                    !overrides.assigns(card.name@, (#[trigger] cats@[c as int]).name@));
            }
        },
    }
    proof {
        assert forall|c: usize| #![all_triggers]
            cat_handles@.contains(c) <==> card_has_category(
                index.entries@,
                *card,
                cats@,
                *overrides,
                c,
            ) by {}
    }
    if cat_handles.len() == 0 {
        proof {
            assert forall|c: usize|
                !card_has_category(index.entries@, *card, cats@, *overrides, c) by {
                if card_has_category(index.entries@, *card, cats@, *overrides, c) {
                    assert(cat_handles@.contains(c));
                }
            }
        }
        return None;
    }
    proof {
        assert(cat_handles@.contains(cat_handles@[0]));
        assert(card_has_category(index.entries@, *card, cats@, *overrides, cat_handles@[0]));
        assert(spec_retained(index.entries@, *card, cats@, *overrides));
    }
    let back: Option<String> = if card.image_uri.is_none() && card.card_faces.len() >= 2 {
        match &card.card_faces[1].image_uri {
            Some(u) => Some(u.clone()),
            None => None,
        }
    } else {
        None
    };
    let front: String = if back.is_some() {
        match &card.card_faces[0].image_uri {
            Some(u) => u.clone(),
            None => String::new(),
        }
    } else {
        match &card.image_uri {
            Some(u) => u.clone(),
            None => String::new(),
        }
    };
    Some(
        TaggedCard {
            card: i,
            id: CardId::new(card.id.as_str()),
            name: card.name.clone(),
            tags: tag_handles,
            types,
            categories: cat_handles,
            front_image_uri: front,
            back_image_uri: back,
        },
    )
}

/// Whether any of the tag's first `j_hi` conditions matches the card.
pub open spec fn matched_category_in_tag_any(
    tag: TagData,
    card: Card,
    cats: Seq<Category>,
    j_hi: int,
) -> bool {
    exists|j: int|
        0 <= j < j_hi && j < tag.conditions@.len() && cond_matches(
            #[trigger] tag.conditions@[j],
            card,
            cats,
        )
}


/// The filter classes of a list of card types.
pub open spec fn filter_classes_of(types: Seq<CardType>) -> Seq<Seq<char>> {
    types.map_values(|t: CardType| spec_type_filter_class(t))
}

impl TaggedCard {
    /// The position of the source card in the snapshot.
    pub fn card(&self) -> (r: usize)
        ensures
            r == self.card,
    {
        self.card
    }

    /// The handles of the tags the card earned.
    pub fn tag_set(&self) -> (r: &Vec<usize>)
        ensures
            r == &self.tags,
    {
        &self.tags
    }

    /// The earned tags, sorted by display name.  Format tags must carry
    /// their format-legality pair, as the display name shows it.
    pub fn tags(&self, index: &TagIndex) -> (r: Vec<usize>)
        requires
            forall|p: int| 0 <= p < self.tags@.len() ==> self.tags@[p] < index.entries@.len(),
            forall|p: int|
                0 <= p < self.tags@.len() ==> ((#[trigger] index.entries@[self.tags@[p] as int]).kind
                    == TagKind::Format ==> index.entries@[self.tags@[p] as int].format is Some),
        ensures
            r@.len() == self.tags@.len(),
            forall|h: usize| r@.contains(h) <==> self.tags@.contains(h),
            forall|p: int| 0 <= p < r@.len() ==> r@[p] < index.entries@.len(),
            forall|p: int, q: int|
                0 <= p < q < r@.len() ==> lex_le(
                    spec_display_name(index.entries@[r@[p] as int]),
                    spec_display_name(index.entries@[r@[q] as int]),
                ),
            (forall|x: int, y: int|
                0 <= x < y < self.tags@.len() ==> self.tags@[x] != self.tags@[y]) ==> (forall|
                p: int,
                q: int,
            |
                0 <= p < q < r@.len() ==> r@[p] != r@[q]),
    {
        let handles = &self.tags;
        let mut pairs: Vec<(String, usize)> = Vec::new();
        let mut i: usize = 0;
        while i < handles.len()
            invariant
                i <= handles@.len(),
                handles@ == self.tags@,
                pairs@.len() == i,
                forall|p: int|
                    0 <= p < handles@.len() ==> handles@[p] < index.entries@.len(),
                forall|p: int|
                    0 <= p < handles@.len() ==> ((#[trigger] index.entries@[handles@[p] as int]).kind
                        == TagKind::Format ==> index.entries@[handles@[p] as int].format is Some),
                forall|p: int| 0 <= p < i ==> (#[trigger] pairs@[p]).1 == handles@[p],
                forall|p: int|
                    0 <= p < i ==> pair_display_named(#[trigger] pairs@[p], index.entries@),
            decreases handles@.len() - i,
        {
            let h = handles[i];
            pairs.push((index.entries[h].name(), h));
            i = i + 1;
        }
        let ghost built = pairs@;
        proof {
            assert(forall|p: int|
                0 <= p < built.len() ==> (#[trigger] built[p]).1 == handles@[p]);
        }
        let sorted = sort_pairs_by_name(pairs);
        proof {
            assert forall|q: int|
                0 <= q < sorted@.len() implies pair_display_named(
                #[trigger] sorted@[q],
                index.entries@,
            ) by {
                assert(sorted@.contains(sorted@[q]));
                assert(built.contains(sorted@[q]));
                let p = choose|p: int| 0 <= p < built.len() && built[p] == sorted@[q];
                assert(pair_display_named(built[p], index.entries@));
            }
        }
        let mut r: Vec<usize> = Vec::new();
        let mut j: usize = 0;
        while j < sorted.len()
            invariant
                j <= sorted@.len(),
                r@.len() == j,
                forall|p: int| 0 <= p < j ==> r@[p] == (#[trigger] sorted@[p]).1,
            decreases sorted@.len() - j,
        {
            let h = sorted[j].1;
            r.push(h);
            j = j + 1;
        }
        proof {
            assert forall|h: usize| r@.contains(h) <==> self.tags@.contains(h) by {
                if r@.contains(h) {
                    let q = choose|q: int| 0 <= q < r@.len() && r@[q] == h;
                    assert(sorted@[q].1 == h);
                    assert(sorted@.contains(sorted@[q]));
                    assert(built.contains(sorted@[q]));
                    let p = choose|p: int| 0 <= p < built.len() && built[p] == sorted@[q];
                    assert(handles@[p] == h);
                }
                if self.tags@.contains(h) {
                    let p = choose|p: int| 0 <= p < handles@.len() && handles@[p] == h;
                    assert(built[p].1 == h);
                    assert(built.contains(built[p]));
                    assert(sorted@.contains(built[p]));
                    let q = choose|q: int| 0 <= q < sorted@.len() && sorted@[q] == built[p];
                    assert(r@[q] == h);
                }
            }
            assert forall|p: int| 0 <= p < r@.len() implies r@[p] < index.entries@.len() by {
                assert(pair_display_named(sorted@[p], index.entries@));
            }
            assert forall|p: int, q: int| 0 <= p < q < r@.len() implies lex_le(
                spec_display_name(index.entries@[r@[p] as int]),
                spec_display_name(index.entries@[r@[q] as int]),
            ) by {
                assert(pair_display_named(sorted@[p], index.entries@));
                assert(pair_display_named(sorted@[q], index.entries@));
                assert(lex_le(sorted@[p].0@, sorted@[q].0@));
            }
            if forall|x: int, y: int|
                0 <= x < y < self.tags@.len() ==> self.tags@[x] != self.tags@[y] {
                assert(forall|x: int, y: int|
                    0 <= x < y < built.len() ==> built[x].1 != built[y].1);
                crate::text::lemma_paired_handles_stay_distinct(built, sorted@);
                assert forall|p: int, q: int| 0 <= p < q < r@.len() implies r@[p] != r@[q] by {
                    assert(r@[p] == sorted@[p].1);
                    assert(r@[q] == sorted@[q].1);
                    assert(sorted@[p].1 != sorted@[q].1);
                }
            }
        }
        r
    }

    /// The card types read from the combined type line.
    pub fn types(&self) -> (r: &Vec<CardType>)
        ensures
            r == &self.types,
    {
        &self.types
    }

    /// The handles of the categories the card earned.
    pub fn categories(&self) -> (r: &Vec<usize>)
        ensures
            r == &self.categories,
    {
        &self.categories
    }

    /// The front image to display.
    pub fn front_image_uri(&self) -> (r: &str)
        ensures
            r@ == self.front_image_uri@,
    {
        self.front_image_uri.as_str()
    }

    /// The back image, present only for genuine two-sided layouts.
    pub fn back_image_uri(&self) -> (r: Option<&str>)
        ensures
            match self.back_image_uri {
                Option::Some(b) => r matches Option::Some(s) && s@ == b@,
                Option::None => r is None,
            },
    {
        match &self.back_image_uri {
            Some(b) => Some(b.as_str()),
            None => None,
        }
    }

    /// Whether the card carries the given card type.
    pub fn has_type(&self, card_type: &CardType) -> (r: bool)
        ensures
            r == self.types@.contains(*card_type),
    {
        let mut i: usize = 0;
        while i < self.types.len()
            invariant
                i <= self.types@.len(),
                forall|k: int| 0 <= k < i ==> self.types@[k] != *card_type,
            decreases self.types@.len() - i,
        {
            if self.types[i] == *card_type {
                return true;
            }
            i = i + 1;
        }
        false
    }

    /// The space-joined filter classes of the card's types.
    pub fn type_filter_classes(&self) -> (r: String)
        ensures
            r@ == join_seqs(filter_classes_of(self.types@), " "@),
    {
        let mut parts: Vec<String> = Vec::new();
        let mut i: usize = 0;
        while i < self.types.len()
            invariant
                i <= self.types@.len(),
                views_of(parts@) == filter_classes_of(self.types@.take(i as int)),
            decreases self.types@.len() - i,
        {
            let ghost pre = parts@;
            parts.push(self.types[i].filter_class().to_owned());
            proof {
                assert(views_of(parts@) =~= views_of(pre).push(
                    spec_type_filter_class(self.types@[i as int]),
                ));
                assert(views_of(parts@) =~= filter_classes_of(self.types@.take(i + 1)));
            }
            i = i + 1;
        }
        proof {
            assert(self.types@.take(self.types@.len() as int) =~= self.types@);
        }
        join_strs(&parts, " ")
    }
}

/// A key/handle pair carrying a tag's display name.
spec fn pair_display_named(p: (String, usize), tags: Seq<TagData>) -> bool {
    p.1 < tags.len() && p.0@ == spec_display_name(tags[p.1 as int])
}

/// A key/handle pair carrying a classified card's name.
spec fn pair_card_named(p: (String, usize), cards: Seq<TaggedCard>) -> bool {
    p.1 < cards.len() && p.0@ == cards[p.1 as int].name@
}

/// Sorts positions of classified cards by card name, for reproducible
/// display output.  The result holds exactly the given positions.
fn sort_card_handles(cards: &Vec<TaggedCard>, handles: Vec<usize>) -> (r: Vec<usize>)
    requires
        forall|p: int| 0 <= p < handles@.len() ==> handles@[p] < cards@.len(),
    ensures
        r@.len() == handles@.len(),
        forall|h: usize| r@.contains(h) <==> handles@.contains(h),
        forall|p: int| 0 <= p < r@.len() ==> r@[p] < cards@.len(),
        forall|p: int, q: int|
            0 <= p < q < r@.len() ==> lex_le(
                cards@[r@[p] as int].name@,
                cards@[r@[q] as int].name@,
            ),
        (forall|x: int, y: int| 0 <= x < y < handles@.len() ==> handles@[x] != handles@[y])
            ==> (forall|p: int, q: int| 0 <= p < q < r@.len() ==> r@[p] != r@[q]),
{
    let mut pairs: Vec<(String, usize)> = Vec::new();
    let mut i: usize = 0;
    while i < handles.len()
        invariant
            i <= handles@.len(),
            pairs@.len() == i,
            forall|p: int| 0 <= p < handles@.len() ==> handles@[p] < cards@.len(),
            forall|p: int| 0 <= p < i ==> (#[trigger] pairs@[p]).1 == handles@[p],
            forall|p: int| 0 <= p < i ==> pair_card_named(#[trigger] pairs@[p], cards@),
        decreases handles@.len() - i,
    {
        let h = handles[i];
        pairs.push((cards[h].name.clone(), h));
        i = i + 1;
    }
    let ghost built = pairs@;
    proof {
        assert(forall|p: int| 0 <= p < built.len() ==> (#[trigger] built[p]).1 == handles@[p]);
    }
    let sorted = sort_pairs_by_name(pairs);
    proof {
        assert forall|q: int|
            0 <= q < sorted@.len() implies pair_card_named(#[trigger] sorted@[q], cards@) by {
            assert(sorted@.contains(sorted@[q]));
            assert(built.contains(sorted@[q]));
            let p = choose|p: int| 0 <= p < built.len() && built[p] == sorted@[q];
            assert(pair_card_named(built[p], cards@));
        }
    }
    let mut r: Vec<usize> = Vec::new();
    let mut j: usize = 0;
    while j < sorted.len()
        invariant
            j <= sorted@.len(),
            r@.len() == j,
            forall|p: int| 0 <= p < j ==> r@[p] == (#[trigger] sorted@[p]).1,
        decreases sorted@.len() - j,
    {
        let h = sorted[j].1;
        r.push(h);
        j = j + 1;
    }
    proof {
        assert forall|h: usize| r@.contains(h) <==> handles@.contains(h) by {
            if r@.contains(h) {
                let q = choose|q: int| 0 <= q < r@.len() && r@[q] == h;
                assert(sorted@[q].1 == h);
                assert(sorted@.contains(sorted@[q]));
                assert(built.contains(sorted@[q]));
                let p = choose|p: int| 0 <= p < built.len() && built[p] == sorted@[q];
                assert(handles@[p] == h);
            }
            if handles@.contains(h) {
                let p = choose|p: int| 0 <= p < handles@.len() && handles@[p] == h;
                assert(built[p].1 == h);
                assert(built.contains(built[p]));
                assert(sorted@.contains(built[p]));
                let q = choose|q: int| 0 <= q < sorted@.len() && sorted@[q] == built[p];
                assert(r@[q] == h);
            }
        }
        assert forall|p: int| 0 <= p < r@.len() implies r@[p] < cards@.len() by {
            assert(pair_card_named(sorted@[p], cards@));
        }
        assert forall|p: int, q: int| 0 <= p < q < r@.len() implies lex_le(
            cards@[r@[p] as int].name@,
            cards@[r@[q] as int].name@,
        ) by {
            assert(pair_card_named(sorted@[p], cards@));
            assert(pair_card_named(sorted@[q], cards@));
            assert(lex_le(sorted@[p].0@, sorted@[q].0@));
        }
        if forall|x: int, y: int| 0 <= x < y < handles@.len() ==> handles@[x] != handles@[y] {
            assert(forall|x: int, y: int|
                0 <= x < y < built.len() ==> built[x].1 != built[y].1);
            crate::text::lemma_paired_handles_stay_distinct(built, sorted@);
            assert forall|p: int, q: int| 0 <= p < q < r@.len() implies r@[p] != r@[q] by {
                assert(r@[p] == sorted@[p].1);
                assert(r@[q] == sorted@[q].1);
                assert(sorted@[p].1 != sorted@[q].1);
            }
        }
    }
    r
}

/// Every entry of a classification output is the exact result for its
/// source card.
pub open spec fn all_ok(
    out: Seq<TaggedCard>,
    cards: Seq<Card>,
    tags: Seq<TagData>,
    cats: Seq<Category>,
    curated: CardTags,
    overrides: CategoryOverrides,
) -> bool {
    forall|j: int|
        0 <= j < out.len() ==> (#[trigger] out[j]).card < cards.len() && tagged_card_ok(
            out[j],
            out[j].card as int,
            cards[out[j].card as int],
            tags,
            cats,
            curated,
            overrides,
        )
}

/// The classification result: the retained cards and the three
/// cross-reference indexes, all built in one pass and rebuilt from
/// scratch on each run.
pub struct TaggedCardDb {
    /// The retained cards, in snapshot order.
    pub cards: Vec<TaggedCard>,
    /// Per tag handle, the positions (into `cards`) of its members.
    pub tag_index: Vec<Vec<usize>>,
    /// Per category handle, the positions of its members.
    pub category_index: Vec<Vec<usize>>,
    /// Per card-type rank, the tag handles with a retained card of that
    /// type.
    pub type_tag_index: Vec<Vec<usize>>,
}

/// The positions of retained cards that carry tag handle `t`.
fn collect_with_tag(out: &Vec<TaggedCard>, t: usize) -> (r: Vec<usize>)
    ensures
        forall|j: usize| #![all_triggers]
            r@.contains(j) <==> (j < out@.len() && out@[j as int].tags@.contains(t)),
{
    let mut r: Vec<usize> = Vec::new();
    let mut j: usize = 0;
    while j < out.len()
        invariant
            j <= out@.len(),
            forall|p: usize| #![all_triggers]
                r@.contains(p) <==> (p < j && out@[p as int].tags@.contains(t)),
        decreases out@.len() - j,
    {
        let ghost pre = r@;
        if contains_handle(&out[j].tags, t) {
            r.push(j);
        }
        proof {
            assert forall|p: usize| #![all_triggers]
                r@.contains(p) <==> (p < j + 1 && out@[p as int].tags@.contains(t)) by {
                if r@.contains(p) {
                    let w = choose|w: int| 0 <= w < r@.len() && r@[w] == p;
                    if w < pre.len() {
                        assert(pre.contains(p));
                    } else {
                        assert(p == j);
                    }
                }
                if p < j + 1 && out@[p as int].tags@.contains(t) {
                    if p < j {
                        assert(pre.contains(p));
                        let w = choose|w: int| 0 <= w < pre.len() && pre[w] == p;
                        assert(r@[w] == p);
                    } else {
                        assert(r@[r@.len() - 1] == j);
                    }
                }
            }
        }
        j = j + 1;
    }
    r
}

/// The positions of retained cards that carry category handle `c`.
fn collect_with_category(out: &Vec<TaggedCard>, c: usize) -> (r: Vec<usize>)
    ensures
        forall|j: usize| #![all_triggers]
            r@.contains(j) <==> (j < out@.len() && out@[j as int].categories@.contains(c)),
{
    let mut r: Vec<usize> = Vec::new();
    let mut j: usize = 0;
    while j < out.len()
        invariant
            j <= out@.len(),
            forall|p: usize| #![all_triggers]
                r@.contains(p) <==> (p < j && out@[p as int].categories@.contains(c)),
        decreases out@.len() - j,
    {
        let ghost pre = r@;
        if contains_handle(&out[j].categories, c) {
            r.push(j);
        }
        proof {
            assert forall|p: usize| #![all_triggers]
                r@.contains(p) <==> (p < j + 1 && out@[p as int].categories@.contains(c)) by {
                if r@.contains(p) {
                    let w = choose|w: int| 0 <= w < r@.len() && r@[w] == p;
                    if w < pre.len() {
                        assert(pre.contains(p));
                    } else {
                        assert(p == j);
                    }
                }
                if p < j + 1 && out@[p as int].categories@.contains(c) {
                    if p < j {
                        assert(pre.contains(p));
                        let w = choose|w: int| 0 <= w < pre.len() && pre[w] == p;
                        assert(r@[w] == p);
                    } else {
                        assert(r@[r@.len() - 1] == j);
                    }
                }
            }
        }
        j = j + 1;
    }
    r
}

/// Whether some retained card carries both the tag and the card type.
fn tag_has_type(out: &Vec<TaggedCard>, t: usize, ty: CardType) -> (r: bool)
    ensures
        r == exists|j: int|
            0 <= j < out@.len() && (#[trigger] out@[j]).tags@.contains(t) && out@[j].types@.contains(
                ty,
            ),
{
    let mut j: usize = 0;
    while j < out.len()
        invariant
            j <= out@.len(),
            forall|p: int|
                0 <= p < j ==> !((#[trigger] out@[p]).tags@.contains(t)
                    && out@[p].types@.contains(ty)),
        decreases out@.len() - j,
    {
        if contains_handle(&out[j].tags, t) && out[j].has_type(&ty) {
            return true;
        }
        j = j + 1;
    }
    false
}

impl TaggedCardDb {
    /// Classifies every card of the snapshot and builds the three
    /// indexes.  Cards that earn no category are dropped from every
    /// output; retained cards keep the snapshot's order.  Per-card
    /// results are independent of one another, so the pass order does not
    /// affect the outcome.
    pub fn new(
        card_tags: &CardTags,
        tag_index: &TagIndex,
        cats: &Vec<Category>,
        overrides: &CategoryOverrides,
        cards: &CardList,
    ) -> (r: TaggedCardDb)
        requires
            forall|i: int| 0 <= i < cards.0@.len() ==> (#[trigger] cards.0@[i]).wf(),
        ensures
            forall|j: int|
                0 <= j < r.cards@.len() ==> (#[trigger] r.cards@[j]).card < cards.0@.len()
                    && tagged_card_ok(
                    r.cards@[j],
                    r.cards@[j].card as int,
                    cards.0@[r.cards@[j].card as int],
                    tag_index.entries@,
                    cats@,
                    *card_tags,
                    *overrides,
                ),
            forall|j1: int, j2: int|
                0 <= j1 < j2 < r.cards@.len() ==> (#[trigger] r.cards@[j1]).card < (
                #[trigger] r.cards@[j2]).card,
            forall|i: usize|
                i < cards.0@.len() && spec_retained(
                    tag_index.entries@,
                    cards.0@[i as int],
                    cats@,
                    *overrides,
                ) ==> exists|j: int| 0 <= j < r.cards@.len() && (#[trigger] r.cards@[j]).card == i,
            forall|i: usize|
                i < cards.0@.len() && !spec_retained(
                    tag_index.entries@,
                    cards.0@[i as int],
                    cats@,
                    *overrides,
                ) ==> forall|j: int| 0 <= j < r.cards@.len() ==> (#[trigger] r.cards@[j]).card != i,
            r.tag_index@.len() == tag_index.entries@.len(),
            forall|t: int|
                0 <= t < r.tag_index@.len() ==> forall|j: usize| #![all_triggers]
                    (#[trigger] r.tag_index@[t])@.contains(j) <==> (j < r.cards@.len()
                        && r.cards@[j as int].tags@.contains(t as usize)),
            r.category_index@.len() == cats@.len(),
            forall|c: int|
                0 <= c < r.category_index@.len() ==> forall|j: usize| #![all_triggers]
                    (#[trigger] r.category_index@[c])@.contains(j) <==> (j < r.cards@.len()
                        && r.cards@[j as int].categories@.contains(c as usize)),
            r.type_tag_index@.len() == 7,
            forall|k: int|
                0 <= k < 7 ==> forall|t: usize| #![all_triggers]
                    (#[trigger] r.type_tag_index@[k])@.contains(t) <==> exists|j: int|
                        0 <= j < r.cards@.len() && (#[trigger] r.cards@[j]).tags@.contains(t)
                            && r.cards@[j].types@.contains(spec_type_of_rank(k)),
    {
        let list = cards.cards();
        let mut out: Vec<TaggedCard> = Vec::new();
        let mut i: usize = 0;
        while i < list.len()
            invariant
                i <= list@.len(),
                list@ == cards.0@,
                forall|c: int| 0 <= c < cards.0@.len() ==> (#[trigger] cards.0@[c]).wf(),
                forall|j: int| 0 <= j < out@.len() ==> (#[trigger] out@[j]).card < i,
                all_ok(out@, cards.0@, tag_index.entries@, cats@, *card_tags, *overrides),
                forall|j1: int, j2: int|
                    0 <= j1 < j2 < out@.len() ==> (#[trigger] out@[j1]).card < (
                    #[trigger] out@[j2]).card,
                forall|c: usize|
                    c < i && spec_retained(
                        tag_index.entries@,
                        cards.0@[c as int],
                        cats@,
                        *overrides,
                    ) ==> exists|j: int| 0 <= j < out@.len() && (#[trigger] out@[j]).card == c,
            decreases list@.len() - i,
        {
            let ghost pre = out@;
            match classify_card(i, &list[i], tag_index, cats, card_tags, overrides) {
                Some(tc) => {
                    out.push(tc);
                    proof {
                        assert forall|c: usize|
                            c < i + 1 && spec_retained(
                                tag_index.entries@,
                                cards.0@[c as int],
                                cats@,
                                *overrides,
                            ) implies exists|j: int|
                            0 <= j < out@.len() && (#[trigger] out@[j]).card == c by {
                            if c < i {
                                let j = choose|j: int|
                                    0 <= j < pre.len() && (#[trigger] pre[j]).card == c;
                                assert(out@[j].card == c);
                            } else {
                                assert(out@[out@.len() - 1].card == c);
                            }
                        }
                    }
                },
                None => {
                    proof {
                        assert forall|c: usize|
                            c < i + 1 && spec_retained(
                                tag_index.entries@,
                                cards.0@[c as int],
                                cats@,
                                *overrides,
                            ) implies exists|j: int|
                            0 <= j < out@.len() && (#[trigger] out@[j]).card == c by {
                            if c < i {
                                let j = choose|j: int|
                                    0 <= j < pre.len() && (#[trigger] pre[j]).card == c;
                                assert(out@[j].card == c);
                            }
                        }
                    }
                },
            }
            i = i + 1;
        }
        let mut tag_lists: Vec<Vec<usize>> = Vec::new();
        let mut t: usize = 0;
        let n_tags = tag_index.len();
        while t < n_tags
            invariant
                t <= tag_index.entries@.len(),
                n_tags == tag_index.entries@.len(),
                all_ok(out@, cards.0@, tag_index.entries@, cats@, *card_tags, *overrides),
                tag_lists@.len() == t,
                forall|w: int|
                    0 <= w < t ==> forall|j: usize| #![all_triggers]
                        (#[trigger] tag_lists@[w])@.contains(j) <==> (j < out@.len()
                            && out@[j as int].tags@.contains(w as usize)),
            decreases tag_index.entries@.len() - t,
        {
            tag_lists.push(collect_with_tag(&out, t));
            t = t + 1;
        }
        let mut cat_lists: Vec<Vec<usize>> = Vec::new();
        let mut c: usize = 0;
        while c < cats.len()
            invariant
                c <= cats@.len(),
                cat_lists@.len() == c,
                forall|w: int|
                    0 <= w < c ==> forall|j: usize| #![all_triggers]
                        (#[trigger] cat_lists@[w])@.contains(j) <==> (j < out@.len()
                            && out@[j as int].categories@.contains(w as usize)),
            decreases cats@.len() - c,
        {
            cat_lists.push(collect_with_category(&out, c));
            c = c + 1;
        }
        let mut type_lists: Vec<Vec<usize>> = Vec::new();
        let mut k: usize = 0;
        while k < 7
            invariant
                k <= 7,
                n_tags == tag_index.entries@.len(),
                all_ok(out@, cards.0@, tag_index.entries@, cats@, *card_tags, *overrides),
                type_lists@.len() == k,
                forall|w: int|
                    0 <= w < k ==> forall|t2: usize| #![all_triggers]
                        (#[trigger] type_lists@[w])@.contains(t2) <==> exists|j: int|
                            0 <= j < out@.len() && (#[trigger] out@[j]).tags@.contains(t2)
                                && out@[j].types@.contains(spec_type_of_rank(w)),
            decreases 7 - k,
        {
            let ty = CardType::of_rank(k);
            let mut l: Vec<usize> = Vec::new();
            let mut t2: usize = 0;
            while t2 < n_tags
                invariant
                    t2 <= n_tags,
                    n_tags == tag_index.entries@.len(),
                    all_ok(out@, cards.0@, tag_index.entries@, cats@, *card_tags, *overrides),
                    forall|h: usize| #![all_triggers]
                        l@.contains(h) <==> (h < t2 && exists|j: int|
                            0 <= j < out@.len() && (#[trigger] out@[j]).tags@.contains(h)
                                && out@[j].types@.contains(ty)),
                decreases n_tags - t2,
            {
                let ghost pre = l@;
                if tag_has_type(&out, t2, ty) {
                    l.push(t2);
                }
                proof {
                    assert forall|h: usize| #![all_triggers]
                        l@.contains(h) <==> (h < t2 + 1 && exists|j: int|
                            0 <= j < out@.len() && (#[trigger] out@[j]).tags@.contains(h)
                                && out@[j].types@.contains(ty)) by {
                        if l@.contains(h) {
                            let w = choose|w: int| 0 <= w < l@.len() && l@[w] == h;
                            if w < pre.len() {
                                assert(pre.contains(h));
                            } else {
                                assert(h == t2);
                            }
                        }
                        if h < t2 + 1 && exists|j: int|
                            0 <= j < out@.len() && (#[trigger] out@[j]).tags@.contains(h)
                                && out@[j].types@.contains(ty) {
                            if h < t2 {
                                assert(pre.contains(h));
                                let w = choose|w: int| 0 <= w < pre.len() && pre[w] == h;
                                assert(l@[w] == h);
                            } else {
                                assert(l@[l@.len() - 1] == t2);
                            }
                        }
                    }
                }
                t2 = t2 + 1;
            }
            proof {
                assert forall|h: usize| #![all_triggers]
                    l@.contains(h) <==> exists|j: int|
                        0 <= j < out@.len() && (#[trigger] out@[j]).tags@.contains(h)
                            && out@[j].types@.contains(spec_type_of_rank(k as int)) by {
                    if exists|j: int|
                        0 <= j < out@.len() && (#[trigger] out@[j]).tags@.contains(h)
                            && out@[j].types@.contains(ty) {
                        let j = choose|j: int|
                            0 <= j < out@.len() && (#[trigger] out@[j]).tags@.contains(h)
                                && out@[j].types@.contains(ty);
                        assert(card_has_tag(
                            tag_index.entries@,
                            cards.0@[out@[j].card as int],
                            cats@,
                            *card_tags,
                            h,
                        ));
                        assert(h < n_tags);
                    }
                }
            }
            type_lists.push(l);
            k = k + 1;
        }
        proof {
            assert forall|i0: usize|
                i0 < cards.0@.len() && !spec_retained(
                    tag_index.entries@,
                    cards.0@[i0 as int],
                    cats@,
                    *overrides,
                ) implies (forall|j: int|
                0 <= j < out@.len() ==> (#[trigger] out@[j]).card != i0) by {
                assert forall|j: int| 0 <= j < out@.len() implies (#[trigger] out@[j]).card
                    != i0 by {
                    if out@[j].card == i0 {
                        let tc = out@[j];
                        assert(tc.categories@.contains(tc.categories@[0]));
                        assert(card_has_category(
                            tag_index.entries@,
                            cards.0@[i0 as int],
                            cats@,
                            *overrides,
                            tc.categories@[0],
                        ));
                        assert(spec_retained(
                            tag_index.entries@,
                            cards.0@[i0 as int],
                            cats@,
                            *overrides,
                        ));
                    }
                }
            }
        }
        TaggedCardDb {
            cards: out,
            tag_index: tag_lists,
            category_index: cat_lists,
            type_tag_index: type_lists,
        }
    }

    /// The retained cards, in snapshot order.
    pub fn cards(&self) -> (r: &Vec<TaggedCard>)
        ensures
            r == &self.cards,
    {
        &self.cards
    }

    /// The retained cards, as the card index keyed by position.
    pub fn card_index(&self) -> (r: &Vec<TaggedCard>)
        ensures
            r == &self.cards,
    {
        &self.cards
    }

    /// The per-tag membership lists.
    pub fn tag_index(&self) -> (r: &Vec<Vec<usize>>)
        ensures
            r == &self.tag_index,
    {
        &self.tag_index
    }

    /// The per-category membership lists.
    pub fn category_index(&self) -> (r: &Vec<Vec<usize>>)
        ensures
            r == &self.category_index,
    {
        &self.category_index
    }

    /// Whether some retained card of the given type carries the tag.
    pub fn type_has_cards_of_tag(&self, card_type: CardType, tag: usize) -> (r: bool)
        requires
            self.type_tag_index@.len() == 7,
        ensures
            r == self.type_tag_index@[spec_type_rank(card_type)]@.contains(tag),
    {
        let k = card_type.rank();
        contains_handle(&self.type_tag_index[k], tag)
    }

    /// All retained card positions, sorted by card name.
    pub fn sorted_cards(&self) -> (r: Vec<usize>)
        ensures
            r@.len() == self.cards@.len(),
            forall|j: usize| r@.contains(j) <==> (j as int) < self.cards@.len(),
            forall|p: int, q: int| 0 <= p < q < r@.len() ==> r@[p] != r@[q],
            forall|p: int, q: int|
                0 <= p < q < r@.len() ==> lex_le(
                    self.cards@[r@[p] as int].name@,
                    self.cards@[r@[q] as int].name@,
                ),
    {
        let mut handles: Vec<usize> = Vec::new();
        let mut j: usize = 0;
        while j < self.cards.len()
            invariant
                j <= self.cards@.len(),
                handles@.len() == j,
                forall|p: int| 0 <= p < j ==> handles@[p] == p,
            decreases self.cards@.len() - j,
        {
            handles.push(j);
            j = j + 1;
        }
        proof {
            assert(forall|x: int, y: int|
                0 <= x < y < handles@.len() ==> handles@[x] != handles@[y]);
        }
        let r = sort_card_handles(&self.cards, handles);
        proof {
            assert forall|h: usize| r@.contains(h) <==> (h as int) < self.cards@.len() by {
                if (h as int) < self.cards@.len() {
                    assert(handles@[h as int] == h);
                    assert(handles@.contains(h));
                }
                if handles@.contains(h) {
                    let p = choose|p: int| 0 <= p < handles@.len() && handles@[p] == h;
                }
            }
        }
        r
    }

    /// The positions of retained cards of one type, sorted by card name.
    pub fn cards_of_type_sorted(&self, card_type: CardType) -> (r: Vec<usize>)
        ensures
            forall|j: usize| #![all_triggers]
                r@.contains(j) <==> ((j as int) < self.cards@.len()
                    && self.cards@[j as int].types@.contains(card_type)),
            forall|p: int, q: int| 0 <= p < q < r@.len() ==> r@[p] != r@[q],
            forall|p: int, q: int|
                0 <= p < q < r@.len() ==> lex_le(
                    self.cards@[r@[p] as int].name@,
                    self.cards@[r@[q] as int].name@,
                ),
    {
        let mut handles: Vec<usize> = Vec::new();
        let mut j: usize = 0;
        while j < self.cards.len()
            invariant
                j <= self.cards@.len(),
                forall|p: usize| #![all_triggers]
                    handles@.contains(p) <==> (p < j && self.cards@[p as int].types@.contains(
                        card_type,
                    )),
                forall|p: int| 0 <= p < handles@.len() ==> handles@[p] < self.cards@.len(),
                forall|p: int, q: int|
                    0 <= p < q < handles@.len() ==> handles@[p] < handles@[q],
                forall|p: int| 0 <= p < handles@.len() ==> handles@[p] < j,
            decreases self.cards@.len() - j,
        {
            let ghost pre = handles@;
            if self.cards[j].has_type(&card_type) {
                handles.push(j);
            }
            proof {
                assert forall|p: usize| #![all_triggers]
                    handles@.contains(p) <==> (p < j + 1 && self.cards@[p as int].types@.contains(
                        card_type,
                    )) by {
                    if handles@.contains(p) {
                        let w = choose|w: int| 0 <= w < handles@.len() && handles@[w] == p;
                        if w < pre.len() {
                            assert(pre.contains(p));
                        } else {
                            assert(p == j);
                        }
                    }
                    if p < j + 1 && self.cards@[p as int].types@.contains(card_type) {
                        if p < j {
                            assert(pre.contains(p));
                            let w = choose|w: int| 0 <= w < pre.len() && pre[w] == p;
                            assert(handles@[w] == p);
                        } else {
                            assert(handles@[handles@.len() - 1] == j);
                        }
                    }
                }
            }
            j = j + 1;
        }
        let r = sort_card_handles(&self.cards, handles);
        r
    }
}

impl CardType {
    /// The position of this card type in the fixed order.
    pub fn rank(self) -> (r: usize)
        ensures
            r as int == spec_type_rank(self),
    {
        match self {
            CardType::Land => 0,
            CardType::Artifact => 1,
            CardType::Creature => 2,
            CardType::Enchantment => 3,
            CardType::Instant => 4,
            CardType::Sorcery => 5,
            CardType::Planeswalker => 6,
        }
    }
}

/// Law: a card that a category's implicit type-line filter accepts is
/// retained, and retained under that category, whatever the tag rules
/// say of it.
pub proof fn lemma_implicit_retention(
    tags: Seq<TagData>,
    card: Card,
    cats: Seq<Category>,
    overrides: CategoryOverrides,
    ci: usize,
)
    requires
        implicit_category(card, cats, ci),
    ensures
        card_has_category(tags, card, cats, overrides, ci),
        spec_retained(tags, card, cats, overrides),
{
    assert(card_has_category(tags, card, cats, overrides, ci));
}


/// The handles of the subtag names that resolve in the index, in subtag
/// order; names that resolve to no tag are simply absent.
pub open spec fn resolved_subtags(tags: Seq<TagData>, names: Seq<String>) -> Seq<usize>
    decreases names.len(),
{
    if names.len() == 0 {
        seq![]
    } else {
        (match crate::tags::find_tag(tags, names[0]@) {
            Option::Some(i) => seq![i as usize],
            Option::None => seq![],
        }) + resolved_subtags(tags, names.drop_first())
    }
}

/// One more name appends its handle, if it resolves.
proof fn lemma_resolved_push(tags: Seq<TagData>, names: Seq<String>, n: String)
    ensures
        resolved_subtags(tags, names.push(n)) == resolved_subtags(tags, names) + (
        match crate::tags::find_tag(tags, n@) {
            Option::Some(i) => seq![i as usize],
            Option::None => seq![],
        }),
    decreases names.len(),
{
    let tail: Seq<usize> = match crate::tags::find_tag(tags, n@) {
        Option::Some(i) => seq![i as usize],
        Option::None => seq![],
    };
    if names.len() == 0 {
        assert(names.push(n)[0] == n);
        assert(names.push(n).drop_first() =~= Seq::<String>::empty());
        assert(resolved_subtags(tags, Seq::<String>::empty()) == Seq::<usize>::empty());
        assert(resolved_subtags(tags, names.push(n)) =~= tail);
        assert(resolved_subtags(tags, names) + tail =~= tail);
    } else {
        assert(names.push(n)[0] == names[0]);
        assert(names.push(n).drop_first() =~= names.drop_first().push(n));
        lemma_resolved_push(tags, names.drop_first(), n);
        let head: Seq<usize> = match crate::tags::find_tag(tags, names[0]@) {
            Option::Some(i) => seq![i as usize],
            Option::None => seq![],
        };
        assert(resolved_subtags(tags, names.push(n)) == head + (resolved_subtags(
            tags,
            names.drop_first(),
        ) + tail));
        assert(head + (resolved_subtags(tags, names.drop_first()) + tail) =~= (head
            + resolved_subtags(tags, names.drop_first())) + tail);
    }
}

/// Whether the card's tag set meets any of the given subtag handles.
fn has_any_handle(tags_of: &Vec<usize>, subs: &Vec<usize>) -> (r: bool)
    ensures
        r == exists|k: int| 0 <= k < subs@.len() && tags_of@.contains(#[trigger] subs@[k]),
{
    let mut k: usize = 0;
    while k < subs.len()
        invariant
            k <= subs@.len(),
            forall|p: int| 0 <= p < k ==> !tags_of@.contains(#[trigger] subs@[p]),
        decreases subs@.len() - k,
    {
        if contains_handle(tags_of, subs[k]) {
            return true;
        }
        k = k + 1;
    }
    false
}

/// One parent tag's cards partitioned among its subtags: a card stands in
/// the bucket of every subtag it independently carries, and in the
/// leftover bucket exactly when it carries none of them.
pub struct SubtagPartition {
    /// The parent tag's handle.
    pub tag: usize,
    /// The resolved subtag handles, in the parent's subtag order.
    pub subtags: Vec<usize>,
    /// Per resolved subtag, the parent's card positions that carry it,
    /// sorted by card name.
    pub buckets: Vec<Vec<usize>>,
    /// The parent's card positions carrying none of the resolved
    /// subtags, sorted by card name.
    pub untagged: Vec<usize>,
}

impl TaggedCardDb {
    /// Partitions one tag's cards among the tag's resolved subtags.
    pub fn subtag_partition(&self, index: &TagIndex, tag: usize) -> (r: SubtagPartition)
        requires
            tag < self.tag_index@.len(),
            tag < index.entries@.len(),
            forall|j: usize|
                self.tag_index@[tag as int]@.contains(j) ==> j < self.cards@.len(),
        ensures
            r.tag == tag,
            r.subtags@ == resolved_subtags(index.entries@, index.entries@[tag as int].subtags@),
            r.buckets@.len() == r.subtags@.len(),
            forall|k: int|
                0 <= k < r.buckets@.len() ==> forall|j: usize| #![all_triggers]
                    (#[trigger] r.buckets@[k])@.contains(j) <==> (self.tag_index@[
                        tag as int
                    ]@.contains(j) && j < self.cards@.len() && self.cards@[j as int].tags@.contains(
                        r.subtags@[k],
                    )),
            forall|k: int, p: int, q: int|
                #![trigger r.buckets@[k]@[p], r.buckets@[k]@[q]]
                0 <= k < r.buckets@.len() && 0 <= p < q < r.buckets@[k]@.len() ==> lex_le(
                    self.cards@[r.buckets@[k]@[p] as int].name@,
                    self.cards@[r.buckets@[k]@[q] as int].name@,
                ),
            forall|j: usize| #![all_triggers]
                r.untagged@.contains(j) <==> (self.tag_index@[tag as int]@.contains(j) && j
                    < self.cards@.len() && !(exists|k: int|
                    0 <= k < r.subtags@.len() && self.cards@[j as int].tags@.contains(
                        #[trigger] r.subtags@[k],
                    ))),
            forall|p: int, q: int|
                0 <= p < q < r.untagged@.len() ==> lex_le(
                    self.cards@[r.untagged@[p] as int].name@,
                    self.cards@[r.untagged@[q] as int].name@,
                ),
    {
        let parent = &self.tag_index[tag];
        let sub_names = &index.entries[tag].subtags;
        let mut subs: Vec<usize> = Vec::new();
        let mut i: usize = 0;
        while i < sub_names.len()
            invariant
                i <= sub_names@.len(),
                sub_names@ == index.entries@[tag as int].subtags@,
                subs@ == resolved_subtags(index.entries@, sub_names@.take(i as int)),
                forall|p: int| 0 <= p < subs@.len() ==> subs@[p] < index.entries@.len(),
            decreases sub_names@.len() - i,
        {
            proof {
                lemma_resolved_push(
                    index.entries@,
                    sub_names@.take(i as int),
                    sub_names@[i as int],
                );
                assert(sub_names@.take(i as int).push(sub_names@[i as int]) =~= sub_names@.take(
                    i + 1,
                ));
            }
            match index.get_index(sub_names[i].as_str()) {
                Some(h) => {
                    subs.push(h);
                    proof {
                        assert(subs@ =~= resolved_subtags(
                            index.entries@,
                            sub_names@.take(i + 1),
                        ));
                    }
                },
                None => {
                    proof {
                        assert(subs@ =~= resolved_subtags(
                            index.entries@,
                            sub_names@.take(i + 1),
                        ));
                    }
                },
            }
            i = i + 1;
        }
        proof {
            assert(sub_names@.take(sub_names@.len() as int) =~= sub_names@);
        }
        let mut buckets: Vec<Vec<usize>> = Vec::new();
        let mut k: usize = 0;
        while k < subs.len()
            invariant
                k <= subs@.len(),
                tag < self.tag_index@.len(),
                parent@ == self.tag_index@[tag as int]@,
                forall|j: usize| parent@.contains(j) ==> j < self.cards@.len(),
                buckets@.len() == k,
                forall|w: int|
                    0 <= w < k ==> forall|j: usize| #![all_triggers]
                        (#[trigger] buckets@[w])@.contains(j) <==> (parent@.contains(j) && j
                            < self.cards@.len() && self.cards@[j as int].tags@.contains(
                            subs@[w],
                        )),
                forall|w: int, p: int, q: int|
                    #![trigger buckets@[w]@[p], buckets@[w]@[q]]
                    0 <= w < k && 0 <= p < q < buckets@[w]@.len() ==> lex_le(
                        self.cards@[buckets@[w]@[p] as int].name@,
                        self.cards@[buckets@[w]@[q] as int].name@,
                    ),
            decreases subs@.len() - k,
        {
            let s = subs[k];
            let mut b: Vec<usize> = Vec::new();
            let mut p: usize = 0;
            while p < parent.len()
                invariant
                    p <= parent@.len(),
                    parent@ == self.tag_index@[tag as int]@,
                    forall|j: usize| parent@.contains(j) ==> j < self.cards@.len(),
                    forall|x: int| 0 <= x < b@.len() ==> b@[x] < self.cards@.len(),
                    forall|j: usize| #![all_triggers]
                        b@.contains(j) <==> (parent@.take(p as int).contains(j) && j
                            < self.cards@.len() && self.cards@[j as int].tags@.contains(s)),
                decreases parent@.len() - p,
            {
                let ghost pre = b@;
                let j = parent[p];
                proof {
                    assert(parent@.contains(parent@[p as int]));
                }
                if contains_handle(&self.cards[j].tags, s) {
                    b.push(j);
                }
                proof {
                    assert forall|j2: usize| #![all_triggers]
                        b@.contains(j2) <==> (parent@.take(p + 1).contains(j2) && j2
                            < self.cards@.len() && self.cards@[j2 as int].tags@.contains(s)) by {
                        if b@.contains(j2) {
                            let w = choose|w: int| 0 <= w < b@.len() && b@[w] == j2;
                            if w < pre.len() {
                                assert(pre.contains(j2));
                                let v = choose|v: int|
                                    0 <= v < parent@.take(p as int).len() && parent@.take(
                                        p as int,
                                    )[v] == j2;
                                assert(parent@.take(p + 1)[v] == j2);
                            } else {
                                assert(j2 == j);
                                assert(parent@.take(p + 1)[p as int] == j);
                            }
                        }
                        if parent@.take(p + 1).contains(j2) && j2 < self.cards@.len()
                            && self.cards@[j2 as int].tags@.contains(s) {
                            let v = choose|v: int|
                                0 <= v < parent@.take(p + 1).len() && #[trigger] parent@.take(
                                    p + 1,
                                )[v] == j2;
                            if v < p {
                                assert(parent@.take(p as int)[v] == j2);
                                assert(pre.contains(j2));
                                let w = choose|w: int| 0 <= w < pre.len() && pre[w] == j2;
                                assert(b@[w] == j2);
                            } else {
                                assert(j2 == j);
                                assert(b@[b@.len() - 1] == j);
                            }
                        }
                    }
                }
                p = p + 1;
            }
            proof {
                assert(parent@.take(parent@.len() as int) =~= parent@);
            }
            let sorted = sort_card_handles(&self.cards, b);
            buckets.push(sorted);
            k = k + 1;
        }
        let mut u: Vec<usize> = Vec::new();
        let mut p: usize = 0;
        while p < parent.len()
            invariant
                p <= parent@.len(),
                parent@ == self.tag_index@[tag as int]@,
                forall|j: usize| parent@.contains(j) ==> j < self.cards@.len(),
                forall|x: int| 0 <= x < u@.len() ==> u@[x] < self.cards@.len(),
                forall|j: usize| #![all_triggers]
                    u@.contains(j) <==> (parent@.take(p as int).contains(j) && j
                        < self.cards@.len() && !(exists|k2: int|
                        0 <= k2 < subs@.len() && self.cards@[j as int].tags@.contains(
                            #[trigger] subs@[k2],
                        ))),
            decreases parent@.len() - p,
        {
            let ghost pre = u@;
            let j = parent[p];
            proof {
                assert(parent@.contains(parent@[p as int]));
            }
            if !has_any_handle(&self.cards[j].tags, &subs) {
                u.push(j);
            }
            proof {
                assert forall|j2: usize| #![all_triggers]
                    u@.contains(j2) <==> (parent@.take(p + 1).contains(j2) && j2
                        < self.cards@.len() && !(exists|k2: int|
                        0 <= k2 < subs@.len() && self.cards@[j2 as int].tags@.contains(
                            #[trigger] subs@[k2],
                        ))) by {
                    if u@.contains(j2) {
                        let w = choose|w: int| 0 <= w < u@.len() && u@[w] == j2;
                        if w < pre.len() {
                            assert(pre.contains(j2));
                            let v = choose|v: int|
                                0 <= v < parent@.take(p as int).len() && #[trigger] parent@.take(
                                    p as int,
                                )[v] == j2;
                            assert(parent@.take(p + 1)[v] == j2);
                        } else {
                            assert(j2 == j);
                            assert(parent@.take(p + 1)[p as int] == j);
                        }
                    }
                    if parent@.take(p + 1).contains(j2) && j2 < self.cards@.len() && !(
                    exists|k2: int|
                        0 <= k2 < subs@.len() && self.cards@[j2 as int].tags@.contains(
                            #[trigger] subs@[k2],
                        )) {
                        let v = choose|v: int|
                            0 <= v < parent@.take(p + 1).len() && #[trigger] parent@.take(
                                p + 1,
                            )[v] == j2;
                        if v < p {
                            assert(parent@.take(p as int)[v] == j2);
                            assert(pre.contains(j2));
                            let w = choose|w: int| 0 <= w < pre.len() && pre[w] == j2;
                            assert(u@[w] == j2);
                        } else {
                            assert(j2 == j);
                            assert(u@[u@.len() - 1] == j);
                        }
                    }
                }
            }
            p = p + 1;
        }
        proof {
            assert(parent@.take(parent@.len() as int) =~= parent@);
        }
        let untagged = sort_card_handles(&self.cards, u);
        SubtagPartition { tag, subtags: subs, buckets, untagged }
    }
}

} // verus!
