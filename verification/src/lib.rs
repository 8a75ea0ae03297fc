//! Tect: an architecture specification language.
//!
//! The library parses Tect sources, resolves their symbols, simulates the flow
//! of tokens through the declared functions and renders the resulting graph.

pub mod text;
pub mod models;
pub mod engine;
pub mod parser;
pub mod formatter;
pub mod export;
pub mod source_manager;
pub mod analyzer;
pub mod lsp;
pub mod vis_js;
pub mod html;
pub mod report;
pub mod pipeline;
pub mod assignments;
pub mod laws;
