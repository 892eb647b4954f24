//! The Leaflet document parser: schema-validated, typed metadata blocks
//! interleaved with free-text paragraphs, parsed from one page's text.

pub mod document;
pub mod line;
pub mod metadata;
pub mod normalized_string;
pub mod paragraph;
pub mod parse_error;
pub mod raw_section;
pub mod schema;
pub mod section;
