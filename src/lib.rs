use vstd::prelude::*;

pub mod ids;
pub mod text;
pub mod models;
pub mod processor;
pub mod order;
pub mod store;
pub mod api;
pub mod runtime;
pub mod config;
pub mod embedding;
pub mod llm;
pub mod chat;
pub mod search;
pub mod rows;
pub mod ingest;

verus! {



} // verus!
