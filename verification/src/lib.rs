//! A self-hosted meta-search library: it asks several public search pages, reads their results,
//! merges them into one list, and keeps its own page-reading settings in repair.
//!
//! Everything here is plain computation. Fetching pages, reading files and serving requests belong
//! to the program around the library, which hands over plain values and takes plain values back.

pub mod archive;
pub mod double;
pub mod engine;
pub mod json;
pub mod lang;
pub mod languages;
pub mod limit;
pub mod maintain;
pub mod request;
pub mod round;
pub mod search;
pub mod searcher;
pub mod store;
pub mod text;
pub mod web;
