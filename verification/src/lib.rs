//! A read-only catalog of card decks, categories, type labels and themes,
//! together with the rules that turn a client-supplied name into a record or
//! into the path of an asset inside one of the fixed asset directories.

pub mod asset;
pub mod catalog;
pub mod deck;
pub mod json;
pub mod names;
pub mod order;
pub mod theme;
