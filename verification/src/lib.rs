//! Verified core of a config-first retrieval-augmented-generation ETL framework.

pub mod error;
pub mod text;
pub mod config;
pub mod validate;
pub mod registry;
pub mod state;
pub mod document;
pub mod source;
pub mod etl;
pub mod rag;
pub mod stream;
pub mod semantic;
pub mod chunker;
pub mod bm25;
pub mod parser;
pub mod env;
pub mod factory;
pub mod store;

