//! Local-first document search with cited answers.

pub mod batch;
pub mod charsmap;
pub mod chunker;
pub mod citation;
pub mod cli;
pub mod config;
pub mod engine;
pub mod error;
pub mod fusion;
pub mod hash;
pub mod hub;
pub mod incremental;
pub mod indexer;
pub mod indexing;
pub mod llm;
pub mod loading;
pub mod models;
pub mod prompt;
pub mod ranking;
pub mod reader;
pub mod reader_registry;
pub mod registry;
pub mod rerank;
pub mod retriever;
pub mod score;
pub mod search;
pub mod sql;
pub mod storage;
pub mod synthesizer;
pub mod text;
pub mod tokenizer;
pub mod tokens;
pub mod traits;
pub mod verbose;
