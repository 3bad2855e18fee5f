//! A GraphQL composition and execution core.
//!
//! The crate compiles a declarative schema configuration into a `Blueprint`
//! (field definitions annotated with an intermediate representation of how
//! each field's value is produced), builds an executable `OperationPlan` from
//! a query document, schedules and batches upstream resolver calls, and
//! synthesizes the final response with GraphQL null propagation.

pub mod blueprint;
pub mod config;
pub mod context;
pub mod exec;
pub mod generator;
pub mod hasher;
pub mod ir;
pub mod jit;
pub mod llm;
pub mod rules;
pub mod synth;
pub mod template;
pub mod value;
