//! The markdown spec reader.
pub mod bullets;
pub mod contexts;
pub mod events;
pub mod front_matter;
pub mod grounding;
pub mod invariants;
pub mod markdown_utils;
pub mod reader;
pub mod section;
pub mod tree;
