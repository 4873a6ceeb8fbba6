//! Generation of GTS JSON schemas from Rust sources annotated with
//! `#[struct_to_gts_schema(...)]`: the text processing, attribute parsing and
//! schema construction, with their contracts.

pub mod text;
pub mod json;
pub mod matcher;
pub mod filters;
pub mod const_values;
pub mod attrs;
pub mod types;
pub mod schema;
pub mod extract;
