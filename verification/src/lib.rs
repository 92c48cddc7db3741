//! Core of a version-gated narrative wiki.
//!
//! Source text in an extended markup dialect is turned into a document tree
//! whose content is shown, hidden, or annotated depending on which releases
//! of a storyline the reader has already observed.

pub mod assoc;
pub mod categories;
pub mod cond;
pub mod embed;
pub mod events;
pub mod irc;
pub mod manifest;
pub mod observed;
pub mod picker;
pub mod render;
pub mod resource;
pub mod search;
pub mod text;
pub mod title;
pub mod tracker;
pub mod tree;
pub mod unicode;
pub mod unscoped;
