//! The generation context of a GraphQL client code generator.
//!
//! For each query a generator emits typed models of the variables and of the
//! response. While it walks a query it has to know which types of the schema
//! and which fragments the query reaches, since only those are emitted, and
//! which capabilities the models derive. This crate keeps that knowledge:
//!
//! - [`registry`]: a table of named entries with a flag for "reached";
//! - [`schema`]: the four tables of a schema and the category of a name;
//! - [`directive`]: the derive directive of a model;
//! - [`derives`]: the two derive lists and their one-time extension;
//! - [`query`]: the context that holds all of these, and the dispatcher that
//!   decides what is done for a field of a given type;
//! - [`text`]: the text operations underneath.

pub mod deprecation;
pub mod derives;
pub mod directive;
pub mod error;
pub mod query;
pub mod registry;
pub mod schema;
pub mod text;
