//! Rendering map images on a cluster of nodes.

pub mod cache_key;
pub mod chance;
pub mod config;
pub mod decimal;
pub mod double;
pub mod figures;
pub mod handling;
pub mod http;
pub mod human_time;
pub mod json;
pub mod membership;
pub mod metrics;
pub mod node;
pub mod options;
pub mod overlay;
pub mod pairs;
pub mod render_cache;
pub mod renderer;
pub mod sim;
pub mod text;
pub mod time;
pub mod types;
pub mod url;
