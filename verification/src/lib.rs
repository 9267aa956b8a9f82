//! Entity search over a semantic code graph.
pub mod cli;
pub mod entity;
pub mod graph;
pub mod grep;
pub mod order;
pub mod paths;
pub mod plugins;
pub mod registry;
pub mod report;
pub mod search;
pub mod text;
pub mod tools;
pub mod json;
