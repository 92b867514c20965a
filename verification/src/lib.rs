//! Structural validation of JSON documents against message schemas.
//!
//! A [`Schema`] holds message shapes: named fields, each of a scalar or a
//! message type, single or repeated. [`validate_json`] walks the root shape
//! and a [`JsonValue`] in lock-step and returns every divergence as a
//! [`Finding`], with the path of the place where it was found.
//!
//! * [`schema`], [`json`], [`finding`] and [`options`] hold the data and
//!   their mathematical models.
//! * [`rules`] states what a validation finds, as functions on the models;
//!   [`engine`] computes it.
//! * [`conformance`] states what it means to conform, and [`laws`] proves
//!   what holds of every validation.
//! * [`declaration`] makes a schema of the messages that schema files
//!   declare, [`parse`] a document of a text, and [`report`] lines of text
//!   of the findings.

pub mod conformance;
pub mod declaration;
pub mod engine;
pub mod finding;
pub mod json;
pub mod laws;
pub mod names;
pub mod options;
pub mod parse;
pub mod report;
pub mod rules;
pub mod schema;

pub use crate::declaration::schema_of_files;
pub use crate::engine::validate_json;
pub use crate::finding::{FieldPath, Finding, FindingKind, PathSegment};
pub use crate::json::{JsonKind, JsonNumber, JsonValue};
pub use crate::options::{FatalError, ValidationOptions};
pub use crate::parse::parse_json;
pub use crate::report::{exit_code, render_report};
pub use crate::schema::{
    Cardinality, FieldSpec, FieldType, MessageShape, ScalarKind, Schema, SchemaError,
};
