//! Builds example JSON request bodies from API schema descriptions.
//!
//! A schema graph is held as a [`SchemaTable`]: every reference is an index
//! into the table, and a reference past its end is dangling. The walker in
//! [`walker`] turns a schema node into an [`ExampleValue`], [`body`] picks the
//! JSON-like content type of a request body and wraps the result, and [`laws`]
//! states what holds of every conversion.

pub mod body;
pub mod laws;
pub mod schema;
pub mod settings;
pub mod value;
pub mod walker;

pub use settings::{Formatting, Settings, SpecBodySettings};
pub use schema::{ResolutionError, SchemaNode, SchemaTable, SchemaType};
pub use body::{from_spec_body, is_json_media_type, Body, MediaContent, RequestBody};
pub use walker::parse_json_from_schema;
pub use value::{example_to_json, ExampleValue, JsonLiteral, ListSpacing, ObjectElement};

