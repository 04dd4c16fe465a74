//! The normalized shape of one ingested card record: faces, converted mana
//! cost, color identity, per-format legality and image references, as the
//! classification engine reads them.  All fields are plain values; the
//! surrounding program deserializes the bulk snapshot into this shape before
//! classification begins.

use crate::color::{distinct_colors, Color};
use vstd::prelude::*;

verus! {

/// A converted mana cost, held exactly as a whole number of half units, so
/// that the deliberate exact-equality comparison of costs is an integer
/// comparison.  Valid source data has only whole and half costs.
#[derive(Debug, Clone, Copy, PartialEq, Eq, Structural, Hash)]
pub struct Cmc {
    pub halves: u32,
}

impl Cmc {
    /// A cost of `halves` half units.
    pub fn from_halves(halves: u32) -> (r: Cmc)
        ensures
            r.halves == halves,
    {
        Cmc { halves }
    }

    /// A whole-number cost.
    pub fn whole(n: u32) -> (r: Cmc)
        requires
            n <= u32::MAX / 2,
        ensures
            r.halves == 2 * n,
    {
        Cmc { halves: 2 * n }
    }

    /// The integer-truncated cost, as cost tags order and display it.
    pub fn truncated(self) -> (r: u32)
        ensures
            r == self.halves / 2,
    {
        self.halves / 2
    }
}

/// The release class of the set a card was printed in.
#[derive(Debug, Clone, Copy, PartialEq, Eq, Structural, Hash)]
pub enum SetType {
    Funny,
    Memorabilia,
    Other,
}

impl SetType {
    /// The filter class attached to cards from novelty sets.
    pub fn filter_class(self) -> (r: &'static str)
        ensures
            r@ == spec_set_type_filter_class(self),
    {
        match self {
            SetType::Other => "",
            _ => "mtg-filter-silver-border",
        }
    }
}

/// The filter class of one set type.
pub open spec fn spec_set_type_filter_class(s: SetType) -> Seq<char> {
    match s {
        SetType::Other => ""@,
        _ => "mtg-filter-silver-border"@,
    }
}

/// A play format for which cards carry a legality state.
#[derive(Debug, Clone, Copy, PartialEq, Eq, Structural, Hash)]
pub enum Format {
    Standard,
    Historic,
    Pioneer,
    Modern,
    Legacy,
    Vintage,
    Pauper,
    Commander,
    Brawl,
    Other,
}

impl Format {
    /// The display name of this format.
    pub fn name(self) -> (r: &'static str)
        ensures
            r@ == spec_format_name(self),
    {
        match self {
            Format::Standard => "Standard",
            Format::Historic => "Historic",
            Format::Pioneer => "Pioneer",
            Format::Modern => "Modern",
            Format::Legacy => "Legacy",
            Format::Vintage => "Vintage",
            Format::Pauper => "Pauper",
            Format::Commander => "Commander",
            Format::Brawl => "Brawl",
            Format::Other => "Other",
        }
    }
}

/// The display name of one format.
pub open spec fn spec_format_name(f: Format) -> Seq<char> {
    match f {
        Format::Standard => "Standard"@,
        Format::Historic => "Historic"@,
        Format::Pioneer => "Pioneer"@,
        Format::Modern => "Modern"@,
        Format::Legacy => "Legacy"@,
        Format::Vintage => "Vintage"@,
        Format::Pauper => "Pauper"@,
        Format::Commander => "Commander"@,
        Format::Brawl => "Brawl"@,
        Format::Other => "Other"@,
    }
}

/// A card's legality state in one format.
#[derive(Debug, Clone, Copy, PartialEq, Eq, Structural, Hash)]
pub enum Legality {
    NotLegal,
    Legal,
    Restricted,
    Banned,
}

impl Legality {
    /// The display name of this legality state.
    pub fn name(self) -> (r: &'static str)
        ensures
            r@ == spec_legality_name(self),
    {
        match self {
            Legality::NotLegal => "Not Legal",
            Legality::Legal => "Legal",
            Legality::Restricted => "Restricted",
            Legality::Banned => "Banned",
        }
    }
}

/// The display name of one legality state.
pub open spec fn spec_legality_name(l: Legality) -> Seq<char> {
    match l {
        Legality::NotLegal => "Not Legal"@,
        Legality::Legal => "Legal"@,
        Legality::Restricted => "Restricted"@,
        Legality::Banned => "Banned"@,
    }
}

/// One printed side of a multi-sided card, with its own name, type line,
/// rules text and image reference.
pub struct CardFace {
    pub name: String,
    pub type_line: Option<String>,
    pub oracle_text: Option<String>,
    pub image_uri: Option<String>,
}

/// One immutable card record of the ingested snapshot.  Classification
/// borrows card data read-only and never mutates it.
pub struct Card {
    /// The stable identifier of the card.
    pub id: String,
    /// The card's page on the source site; irrelevant to classification.
    pub scryfall_uri: String,
    /// The printed faces of a multi-faced card; empty for single-faced
    /// cards.
    pub card_faces: Vec<CardFace>,
    /// The converted mana cost.
    pub cmc: Cmc,
    /// The set of colors of the card's identity; order-insensitive.
    pub color_identity: Vec<Color>,
    /// The primary display name.
    pub name: String,
    /// The top-level type line, if any.
    pub type_line: Option<String>,
    /// The top-level rules text, if any.
    pub oracle_text: Option<String>,
    /// The card-level image reference, if any.
    pub image_uri: Option<String>,
    /// The release class of the card's set.
    pub set_type: SetType,
    /// The legality state per format.
    pub legalities: Vec<(Format, Legality)>,
}

/// The first legality entry for a format, if any.
pub open spec fn lookup_legality(s: Seq<(Format, Legality)>, f: Format) -> Option<Legality>
    decreases s.len(),
{
    if s.len() == 0 {
        Option::None
    } else if s[0].0 == f {
        Option::Some(s[0].1)
    } else {
        lookup_legality(s.drop_first(), f)
    }
}

impl Card {
    /// A well-formed record lists each identity color once.
    pub open spec fn wf(self) -> bool {
        distinct_colors(self.color_identity@)
    }

    /// The card's legality state in `f`, if the snapshot lists one.
    pub fn legality_of(&self, f: Format) -> (r: Option<Legality>)
        ensures
            r == lookup_legality(self.legalities@, f),
    {
        let mut i: usize = 0;
        proof {
            assert(self.legalities@.skip(0) =~= self.legalities@);
        }
        while i < self.legalities.len()
            invariant
                i <= self.legalities@.len(),
                lookup_legality(self.legalities@, f) == lookup_legality(
                    self.legalities@.skip(i as int),
                    f,
                ),
            decreases self.legalities@.len() - i,
        {
            let (fi, li) = self.legalities[i];
            proof {
                assert(self.legalities@.skip(i as int)[0] == self.legalities@[i as int]);
                assert(self.legalities@.skip(i as int).drop_first() =~= self.legalities@.skip(
                    i + 1,
                ));
            }
            if fi == f {
                return Some(li);
            }
            i = i + 1;
        }
        proof {
            assert(self.legalities@.skip(i as int).len() == 0);
        }
        None
    }
}

/// The full ingested card list.
pub struct CardList(pub Vec<Card>);

impl CardList {
    /// The cards of the snapshot.
    pub fn cards(&self) -> (r: &Vec<Card>)
        ensures
            r@ == self.0@,
    {
        &self.0
    }
}

/// The metadata record that locates the bulk snapshot to download.
pub struct BulkDataInfo {
    pub download_uri: String,
}

} // verus!
