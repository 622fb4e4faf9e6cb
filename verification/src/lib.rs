//! Parsing of target-information documents: a YAML frontmatter block with
//! `tier` and `maintainers` fields, followed by a body split into named
//! sections introduced by `## ` headings drawn from a closed vocabulary.

pub mod laws;
pub mod parse;
pub mod text;
