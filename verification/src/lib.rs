//! Sonic's storage core: posting lists, key layouts, atom encodings, merge
//! operators, item validation, document framing, query building, text
//! lexing and preprocessing, word graphs with their pending actions and
//! consolidation, and what the executors decide from what the store holds.

pub mod backup;
pub mod config;
pub mod consolidate;
pub mod document;
pub mod dynamic_config;
pub mod encoding;
pub mod env;
pub mod executor;
pub mod fst_graph;
pub mod fst_store;
pub mod graph;
pub mod hashing;
pub mod iid;
pub mod ingest;
pub mod item;
pub mod lang_detection;
pub mod keyer;
pub mod kv_batch;
pub mod kv_keys;
pub mod lexer;
pub mod lexing;
pub mod merge;
pub mod normalize;
pub mod pending;
pub mod pool;
pub mod posting;
pub mod preprocess;
pub mod profile;
pub mod query;
pub mod scoring;
pub mod search_phases;
pub mod stats;
pub mod stemming;
pub mod stopwords;
pub mod term_dump;
pub mod text;
