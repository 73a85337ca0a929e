//! Turns a Wikipedia XML dump into a compact binary link graph.
pub mod adjacency;
pub mod catalog;
pub mod dump;
pub mod graph;
pub mod laws;
pub mod layout;
pub mod links;
pub mod markup;
pub mod models;
pub mod page;
pub mod parser;
pub mod tables;
pub mod text;
pub mod words;
