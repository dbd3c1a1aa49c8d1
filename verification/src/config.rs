//! Settings for one corpus-load pass: where the corpus files live, how
//! their names are formed, and which window of lines to take.

use vstd::prelude::*;

verus! {

/// The names of the two languages of the corpus, used as file suffixes.
#[derive(Debug, Clone)]
pub struct Langs {
    pub source: String,
    pub target: String,
}

/// Where the corpus lives and which window of it to load: lines are taken
/// starting after `textunit_offset`, at most `textunit_limit` of them.
#[derive(Debug, Clone)]
pub struct Config {
    pub corpus_dir: String,
    pub tok_prefix: String,
    pub langs: Langs,
    pub alignment_file_path: String,
    pub orig_prefix: String,
    pub output_amphigram_path: String,
    pub textunit_limit: usize,
    pub textunit_offset: usize,
}

} // verus!
