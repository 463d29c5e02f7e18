//! Builds a deduplicated architecture graph (an "execution view model") from an
//! ordered sequence of observed connector instances, and renders it as JSON,
//! Graphviz DOT text, or input for a PNG layout engine.

pub mod args;
pub mod attrs;
pub mod codec;
pub mod config;
pub mod db;
pub mod dot;
pub mod json;
pub mod laws;
pub mod model;
pub mod plugin;
pub mod strings;
