//! An in-memory planning layer for a Debian-style package manager.
//!
//! The package graph is an immutable arena of packages and versions; every
//! decision (install, keep, remove) lives in an overlay of marks on top of it,
//! and the derived facts (broken dependencies, garbage) are recomputed from
//! the marks by a sweep.
pub mod cache;
pub mod cell;
pub mod config;
pub mod depcache;
pub mod graph;
pub mod install;
pub mod laws;
pub mod package;
pub mod records;
pub mod resolver;
pub mod rules;
pub mod sweep;
pub mod text;
pub mod upgrade;

