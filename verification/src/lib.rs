//! A plain-text markup for screenplays: its grammar, its parser and the document tree that a
//! parse gives, with a renderer to HTML and a player that read the tree.
//!
//! - [`types`] holds the tree, [`metadata`] the mapping that carries a scene's metadata and a
//!   file's frontmatter, and [`model`] what both are in contracts.
//! - [`grammar`] states the markup as rules on characters, and [`parser`] computes them:
//!   [`parser::file`] turns a text into a [`types::File`] or fails as a whole.
//! - [`exporter`] renders a file as HTML, [`player`] lays it out as lines and pauses.
//! - [`laws`] states what holds of all of them together.

pub mod chars;
pub mod exporter;
pub mod grammar;
pub mod laws;
pub mod metadata;
pub mod model;
pub mod parser;
pub mod player;
pub mod strings;
pub mod types;
