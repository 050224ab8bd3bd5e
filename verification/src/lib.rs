//! Parser for EVM Object Format (EOF) containers, with header validation.
pub mod constants;
pub mod text;
pub mod types;
pub mod layout;
pub mod parser;
pub mod input;
pub mod laws;
pub mod encoding;
pub mod completeness;
