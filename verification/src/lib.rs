//! Core model of an interactive staging tool: a unified-diff parser, a patch
//! builder for partial (line-level) staging and unstaging, a change-tree model
//! with incremental visibility, and the navigation state machine that ties the
//! tree panes, the diff view and the line-selection mode together.

pub mod app;
pub mod config;
pub mod diff;
pub mod patch;
pub mod status;
pub mod text;
pub mod tree;
