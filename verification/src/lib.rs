//! Finds oversized files in a project tree while honouring its ignore rules,
//! and records them in a manifest that can be merged again and again without
//! duplicating or reordering what it already lists.

pub mod classify;
pub mod config;
pub mod laws;
pub mod manifest;
pub mod matcher;
pub mod output;
pub mod paths;
pub mod text;
pub mod walker;
