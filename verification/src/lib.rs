//! A verified translator from a compact textual notation for
//! entity-relationship models into a directed-graph description document.
//!
//! The pipeline has two stages: `parse_model` turns the textual notation
//! into entities and relationships, and `render_graph` turns those into a
//! graph-description document ready for a graph-layout renderer.

pub mod dsl;
pub mod graph;
pub mod model;
pub mod parser;
pub mod render;
pub mod scan;

pub use dsl::render_dsl;
pub use graph::emit_graph;
pub use graph::GraphStmt;
pub use model::Attribute;
pub use model::Cardinality;
pub use model::Entity;
pub use model::Relationship;
pub use parser::parse_model;
pub use parser::ParseError;
pub use render::render_cardinality;
pub use render::render_graph;
