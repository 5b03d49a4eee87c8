//! Explainable project scheduling: the verified core of the utf8proj model.
//!
//! The crate holds the diagnostic model and its emitters, the progress
//! roll-up of task trees, baseline snapshots and their comparison, the
//! status dashboard classification, and the text navigation used by the
//! language server.

pub mod text;
pub mod diagnostic;
pub mod model;
pub mod path;
pub mod cli;
pub mod date;
pub mod project;
pub mod schedule;
pub mod baseline;
pub mod status;
pub mod navigation;
pub mod hover;
pub mod bench;
pub mod synthetic;
pub mod display;
pub mod tjp;
pub mod files;
pub mod lsp;
pub mod keyed;
pub mod fixes;
pub mod patch;
pub mod psplib;
pub mod psplib_project;
pub mod report;
