//! Turns the text of a health-insurance document (plan, policy, claim or any
//! other kind) into a title, an ordered list of sections, typed metadata
//! fields and a deduplicated list of domain entities.

pub mod text;
pub mod document;
pub mod engines;
pub mod entities;
pub mod output;

pub use document::{infer_doc_type, process, ConfigError, DocKind, ProcessedDocument, Section};
pub use entities::{deduplicate_entities, extract, Entity, EntityType};
pub use output::{csv_record, graph_edges, Edge};
