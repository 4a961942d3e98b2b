//! Conversion between variants of a logographic script.
//!
//! Text is converted by substituting characters and multi-character phrases
//! according to compiled mapping tables.  A compiler parses tab-delimited
//! table sources, derives reversed tables, assembles one dictionary per
//! conversion pass and serializes its entries; a registry loads the
//! compiled artifacts and rebuilds each pass's prefix trie; the pipeline
//! tokenizes input with an external
//! segmenter and applies a greedy longest-prefix rewrite, two passes per
//! token, routing every conversion through a standard intermediate form.

pub mod codec;
pub mod compile;
pub mod dict;
pub mod errors;
pub mod pipeline;
pub mod registry;
pub mod script;
pub mod segmenter;
pub mod seq_util;
pub mod table;
pub mod trie_store;

pub use pipeline::convert;
pub use pipeline::convert_export;
pub use pipeline::convert_word;
pub use pipeline::JSError;
pub use script::Script;
