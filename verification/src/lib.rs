//! Token-to-character alignment for parallel corpora.
//!
//! Given a tokenized sentence and its original untokenized text, the
//! alignment engine re-derives each token's exact character span, measured
//! in UTF-16 code units, despite tokenizer-side normalization (entity
//! escaping, placeholder characters, ASCII case). Around the engine sit a
//! UTF-16 indexer, the closed set of normalization strategies, parsers for
//! whitespace-separated tokens and `"<source>-<target>"` alignment links,
//! line windowing, and the assembly of bilingual records.

pub mod bi_rtoks;
pub mod bi_text;
pub mod config;
pub mod lang;
pub mod link;
pub mod phrase_pair_with_tok_index;
pub mod reader;
pub mod rtok;
pub mod rtoks_builder;
pub mod str_mod;
pub mod text;
pub mod textunit;
pub mod utf16;
