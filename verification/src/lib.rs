//! Classification engine for a catalog of trading-card records.
//!
//! Cards are evaluated against a declarative rule set: every tag carries one
//! or more match conditions (AND semantics across a condition's populated
//! fields, OR semantics across the conditions of one tag), and every match
//! assigns the card to the tag and to the condition's category.  The engine
//! performs one batch pass over an immutable snapshot of card data and builds
//! the tag, category and kind indexes that a rendering layer consumes.

pub mod card;
pub mod color;
pub mod pattern;
pub mod scryfall;
pub mod tags;
pub mod text;
