//! Structural facts of a front-end project, read off its source text:
//! declared classes, injection metadata, module composition, imports and
//! routing trees.

pub mod analyzer;
pub mod entities;
pub mod fields;
pub mod files;
pub mod grouping;
pub mod fields_proofs;
pub mod imports;
pub mod models;
pub mod pattern;
pub mod report;
pub mod routes;
pub mod scanner;
pub mod scanner_proofs;
pub mod sorting;
pub mod text;
pub mod utils;
