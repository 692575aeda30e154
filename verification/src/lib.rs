//! Schema model for layered configuration.
//!
//! A schema describes a struct or an enum whose fields carry metadata for
//! the command line and for configuration files. From registered schemas
//! the library derives their partial counterparts, in which every field is
//! optional, and it merges partial instances by precedence into one
//! instance that can be materialized.
//!
//! - [`casing`]: casing styles and the renaming of identifiers.
//! - [`attrs`]: normalization of a field's raw metadata.
//! - [`types`]: declared types, their classification and their inner type.
//! - [`field`], [`variant`]: field and variant descriptors.
//! - [`schema`]: schemas and the building of their descriptors.
//! - [`partial`]: partial schemas, flatten inlining, collisions and cycles.
//! - [`registry`]: the registry of schemas and partial counterparts.
//! - [`names`]: name tables for the command line and for files.
//! - [`instance`]: partial instances and what it means to be one.
//! - [`selection`]: instances of an enum-shaped partial schema.
//! - [`merge`]: precedence merge.
//! - [`materialize`]: materialization and resolution.
//! - [`error`]: the failures of registration and of merging.

pub mod attrs;
pub mod casing;
pub mod error;
pub mod field;
pub mod instance;
pub mod materialize;
pub mod merge;
pub mod names;
pub mod partial;
pub mod registry;
pub mod schema;
pub mod selection;
pub mod types;
pub mod variant;
