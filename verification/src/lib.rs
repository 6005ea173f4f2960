//! Schema-driven contract compiler.
//!
//! Given a declarative schema of message kinds, each carrying a topic
//! template and an optional set of named fields, this library derives for
//! every kind the shape of its payload type, a topic-builder that renders
//! the kind's template from runtime arguments, and a message constructor
//! that pairs the rendered topic with a default-valued payload.

pub mod binary;
pub mod casing;
pub mod generate;
pub mod json;
pub mod numeral;
pub mod payload;
pub mod schema;
pub mod template;
pub mod walker;
