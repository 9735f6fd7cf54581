//! Semantic validation of SQLite SQL against a layered schema catalog.

#![allow(unused_imports)]

pub mod catalog;
pub mod catalog_core;
pub mod analyzer;
pub mod relations;
pub mod functions;
pub mod lineage;
pub mod flags;
pub mod validation;
pub mod schema;
pub mod config;
pub mod dialect;
pub mod diagnostics;
pub mod text;
pub mod table;
pub mod fuzzy;
pub mod tree;
pub mod model;
pub mod pass;
pub mod ddl;
pub mod accumulate;
pub mod ast;
pub mod walker;
pub mod resolver;
pub mod render;
pub mod completion;

use vstd::prelude::*;

verus! {

} // verus!
