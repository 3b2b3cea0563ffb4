//! Compiles a search expression tree into an SQL predicate with bound
//! parameters, over a snapshot of the collection's decks and note types.

pub mod card;
pub mod catalog;
pub mod checksum;
pub mod laws;
pub mod markup;
pub mod needs;
pub mod nodes;
pub mod numbering;
pub mod params;
pub mod placeholders;
pub mod sqlwriter;
pub mod text;
pub mod wildcard;
