use vstd::prelude::*;

pub mod text;
pub mod tokenizer;
pub mod models;
pub mod config;
pub mod hashing;
pub mod graph;
pub mod syntax;
pub mod pathname;
pub mod symbols;
pub mod builder;
pub mod refs;
pub mod linking;
pub mod symbol_index;
pub mod pet;
pub mod paths;
pub mod seeds;
pub mod chunking;
pub mod index_manager;
pub mod scanner;
pub mod features;
pub mod agent;
pub mod tools;
pub mod distance;
pub mod line_search;
pub mod glob_filter;
pub mod search_filter;
pub mod order;
pub mod dir_listing;
pub mod graph_context;
pub mod summary_plan;
pub mod tool_call;
pub mod summary_search;
