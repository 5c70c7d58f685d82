//! A page graph records what happened while a browser loaded a page: nodes are
//! DOM elements, scripts, resources and storage areas; edges are the actions
//! between them. This library stores such a graph and answers causal
//! questions about it.

pub mod adjacency;
pub mod attribution;
pub mod closure;
pub mod dom_tree;
pub mod edge_eq;
pub mod effects;
pub mod effects_laws;
pub mod filters;
pub mod graph;
pub mod graph_build;
pub mod graphml;
pub mod graphml_fields;
pub mod graphml_read;
pub mod graphml_kinds;
pub mod graphml_text;
pub mod id_laws;
pub mod ids;
pub mod merge;
pub mod nested;
pub mod nested_laws;
pub mod order;
pub mod places;
pub mod queries;
pub mod rules;
pub mod select;
pub mod text;
pub mod types;
