//! Design-document tooling: document states, markdown normalization, the index file
//! and the configuration.

pub mod doc;
pub mod normalize;
pub mod strmap;
pub mod index_sync;
pub mod config;
pub mod state;
pub mod info;
pub mod validate;
pub mod docmeta;
pub mod extract;
pub mod filename;
pub mod update_index;
pub mod nummap;
pub mod index;
pub mod add;
pub mod search;
pub mod theme;
pub mod index_table;
pub mod stats;
pub mod replace;
