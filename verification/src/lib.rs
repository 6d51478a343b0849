//! Structural type inference over JSON samples and JSON-Schema documents.
//!
//! The library builds a type graph (an arena of nodes addressed by stable
//! handles) from raw value samples or from schema documents, folds
//! disagreeing shapes into union types, and offers optimizer passes that
//! merge semantically equivalent nodes in place.

pub mod equality;
pub mod json;
pub mod json_schema;
pub mod naming;
pub mod optimizer;
pub mod schema;
pub mod unioner;

pub use json::{infer as infer_from_json, JsonValue};
pub use json_schema::{
    infer as infer_from_json_schema, infer_mult as infer_mult_from_json_schema, InferrerClosure,
    JSONSchemaError, JSONSchemaMap, SchemaDoc, SchemaNode, SchemaProperty,
};
pub use optimizer::Optimizer;
pub use schema::{ArenaIndex, NameHints, Record, Schema, Type, TypeArena};
