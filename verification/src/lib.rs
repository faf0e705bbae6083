//! Recipe normalisation for crafting-recipe export documents.
//!
//! An export document describes every recipe of one machine category. Its
//! ingredient slots may hold parallel arrays of variants; the importer turns
//! each record into fully resolved recipes, interning every identifier, and
//! stages them for a bulk load into a relational store.
pub mod capacity;
pub mod importer;
pub mod interner;
pub mod json;
pub mod laws;
pub mod lemmas;
pub mod loader;
pub mod model;
pub mod recipe_db;
pub mod sql;
pub mod types;
pub mod web;
