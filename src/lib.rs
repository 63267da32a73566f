//! An in-memory store of RDF-style quads: terms (named nodes, blank nodes,
//! literals), quads built from them, and a dataset that holds each quad once
//! and answers pattern queries through per-position indexes.

pub mod blank_node;
pub mod dataset;
pub mod error;
pub mod index;
pub mod iri;
pub mod literal;
pub mod named_node;
pub mod quad;
pub mod term;
pub mod xsd_type;

pub use blank_node::BlankNode;
pub use dataset::Dataset;
pub use error::Error;
pub use literal::Literal;
pub use named_node::NamedNode;
pub use quad::Quad;
pub use term::{Object, Subject};
pub use xsd_type::XsdType;
