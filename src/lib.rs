//! Render-graph engine of a live video-effects compositor: a content store
//! for shader text, an effect library with per-item load state, effect
//! program parsing, the multi-pass feedback protocol and the node graph.

pub mod chain;
pub mod content;
pub mod digraph;
pub mod effect_node;
pub mod graph;
pub mod library;
pub mod model;
pub mod render;
pub mod video_node;
