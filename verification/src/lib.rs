//! Merges several collections of bibliographic records into a single
//! deduplicated collection: a multi-criterion duplicate classifier, a
//! resolution protocol (silent or driven by an interactive caller), and a
//! citation-key allocator that keeps identifiers unique.

use vstd::prelude::*;

mod bibliography;
mod classify;
mod keys;
mod paths;
mod record;
mod similarity;
mod threshold;
mod unify;

pub use bibliography::{contains_key, unique_keys, Bibliography};
pub use classify::{classify, classify_spec, compare_entries, compare_spec, decide_which_to_keep,
    lemma_threshold_monotonic, resolve_spec, same_doi, same_title, similar_title, Choice,
    ComparisonResult, Verdict};
pub use keys::{add_entry_to_bibliography, alloc_key, candidate_key, decimal, decimal_string,
    digit_char, first_free_key, get_new_citation_key, is_first_free_suffix, lemma_alloc_key_fresh,
    lemma_first_free_exists, lemma_first_free_unique};
pub use paths::{bib_suffix, include_path, include_path_spec, output_prefix};
pub use record::{eq_record, fields_view, opt_str_view, with_key, Field, FieldView, Record,
    RecordView};
pub use similarity::{damerau_levenshtein_bits, jaro_bits, jaro_winkler_bits, levenshtein_bits,
    ppm_of_bits, similarity_ppm, similarity_score, sorensen_dice_bits, test_title_similarity};
pub use threshold::{all_digits, all_zeros, digit_val, digits_val, frac_part, frac_ppm, int_part,
    is_ascii_digit, is_dot_split, parse_threshold_ppm, pow10, threshold_ppm_spec, valid_threshold,
    validate_threshold, wellformed_decimal};
pub use unify::{add_bibliography_to_unified, has_match, lemma_merge_all_unique_keys,
    lemma_merge_idempotent, matches_none, offer_entry, resume_entry, scan_post, silent_merge_all,
    silent_merge_entry, silent_merge_seq, total_len, unify_bibliography, views_of, OfferOutcome};

verus! {

/// Name of the algorithm used to compare title similarity between two records.
#[derive(Clone, Copy, Debug)]
pub enum Algorithm {
    Levenshtein,
    DamerauLevenshtein,
    Jaro,
    JaroWinkler,
    SorensenDice,
}

/// Similarity scores and thresholds are integers scaled to parts per million:
/// a score of `1_000_000` stands for a similarity of exactly 1.
pub const SIMILARITY_SCALE: u64 = 1_000_000;

/// Configuration for one unification run.
///
/// `similarity_threshold` is in parts per million (see [`SIMILARITY_SCALE`]);
/// a threshold of `SIMILARITY_SCALE` disables fuzzy title matching entirely.
#[derive(Clone, Copy, Debug)]
pub struct Config {
    pub similarity_threshold: u64,
    pub algorithm: Algorithm,
    pub silent: bool,
    pub biblatex: bool,
}

} // verus!
