//! Hybrid full-text and semantic search over local text: the verified core.
pub mod index;
pub mod text;
pub mod tui;
pub mod search;
pub mod display;
pub mod cli;
pub mod config;
