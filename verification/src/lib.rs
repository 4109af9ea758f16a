//! Extraction of a token catalog and a function catalog from a
//! shading-language reference document.
//!
//! The document is handed to the library as an ordered sequence of [`doc::Block`]
//! values (headings, lists, tables, code blocks and prose), and the extractors
//! walk that sequence with explicit section-boundary predicates.

pub mod doc;
pub mod functions;
pub mod nmap;
pub mod param;
pub mod records;
pub mod sig;
pub mod text;
pub mod tokens;
