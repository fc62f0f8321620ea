use vstd::prelude::*;

use crate::record::{eq_record, Record, RecordView};
use crate::similarity::{similarity_ppm, test_title_similarity};
use crate::{Config, SIMILARITY_SCALE};

verus! {

/// What the duplicate rules say of a candidate record against an incumbent.
#[derive(Clone, Copy, Debug, PartialEq, Eq, Structural)]
pub enum Verdict {
    /// The two records are field-set equal.
    Identical,
    /// The two records stand for the same publication and need resolving.
    Duplicate,
    /// The two records are unrelated.
    Distinct,
}

/// Which of two probable-duplicate records to retain.
#[derive(Clone, Copy, Debug, PartialEq, Eq, Structural)]
pub enum ComparisonResult {
    /// Keep both records.
    KeepBoth,
    /// Keep the incumbent already in the unified bibliography.
    KeepPrev,
    /// Keep the incoming entry and drop the incumbent.
    KeepEntry,
}

/// One answer of the interactive resolution prompt.
#[derive(Clone, Copy, Debug, PartialEq, Eq, Structural)]
pub enum Choice {
    /// Keep the first record shown, the incumbent.
    First,
    /// Keep the second record shown, the incoming entry.
    Second,
    /// Keep both records.
    Both,
}

/// Rule: both records carry a non-empty doi and the values are equal.
pub open spec fn same_doi(prev: RecordView, entry: RecordView) -> bool {
    match (prev.doi, entry.doi) {
        (Option::Some(a), Option::Some(b)) => a.len() > 0 && a == b,
        _ => false,
    }
}

/// Rule: both records carry a non-empty title and the values are equal.
pub open spec fn same_title(prev: RecordView, entry: RecordView) -> bool {
    match (prev.title, entry.title) {
        (Option::Some(a), Option::Some(b)) => a.len() > 0 && a == b,
        _ => false,
    }
}

/// Rule: fuzzy matching is enabled (threshold below the top of the scale),
/// both records carry a title, and the titles' similarity reaches the
/// threshold.
pub open spec fn similar_title(prev: RecordView, entry: RecordView, config: Config) -> bool {
    match (prev.title, entry.title) {
        (Option::Some(a), Option::Some(b)) => config.similarity_threshold < SIMILARITY_SCALE
            && similarity_ppm(config.algorithm, a, b) >= config.similarity_threshold as int,
        _ => false,
    }
}

/// The verdict on an incoming `entry` against an incumbent `prev`: the first
/// rule that fires wins.
///
/// 1. field-set equal records are `Identical`;
/// 2. records with the same citation key are `Duplicate`;
/// 3. so are records with the same non-empty doi,
/// 4. records with the same non-empty title,
/// 5. and, when fuzzy matching is enabled, records with similar titles;
/// 6. anything else is `Distinct`.
pub open spec fn classify_spec(prev: RecordView, entry: RecordView, config: Config) -> Verdict {
    if prev == entry {
        Verdict::Identical
    } else if prev.key == entry.key {
        Verdict::Duplicate
    } else if same_doi(prev, entry) {
        Verdict::Duplicate
    } else if same_title(prev, entry) {
        Verdict::Duplicate
    } else if similar_title(prev, entry, config) {
        Verdict::Duplicate
    } else {
        Verdict::Distinct
    }
}

fn doi_rule(prev: &Record, entry: &Record) -> (r: bool)
    ensures
        r == same_doi(prev@, entry@),
{
    match (&prev.doi, &entry.doi) {
        (Option::Some(a), Option::Some(b)) => !a.as_str().is_empty() && *a == *b,
        _ => false,
    }
}

fn title_rule(prev: &Record, entry: &Record) -> (r: bool)
    ensures
        r == same_title(prev@, entry@),
{
    match (&prev.title, &entry.title) {
        (Option::Some(a), Option::Some(b)) => !a.as_str().is_empty() && *a == *b,
        _ => false,
    }
}

fn fuzzy_rule(prev: &Record, entry: &Record, config: &Config) -> (r: bool)
    ensures
        r == similar_title(prev@, entry@, *config),
{
    match (&prev.title, &entry.title) {
        (Option::Some(a), Option::Some(b)) => config.similarity_threshold < SIMILARITY_SCALE
            && test_title_similarity(a.as_str(), b.as_str(), config),
        _ => false,
    }
}

/// Classifies an incoming `entry` against an incumbent `prev` under the
/// decision order of [`classify_spec`], checking each rule only when every
/// rule before it has failed.
pub fn classify(prev: &Record, entry: &Record, config: &Config) -> (r: Verdict)
    ensures
        r == classify_spec(prev@, entry@, *config),
{
    if eq_record(prev, entry) {
        Verdict::Identical
    } else if prev.key == entry.key {
        Verdict::Duplicate
    } else if doi_rule(prev, entry) {
        Verdict::Duplicate
    } else if title_rule(prev, entry) {
        Verdict::Duplicate
    } else if fuzzy_rule(prev, entry, config) {
        Verdict::Duplicate
    } else {
        Verdict::Distinct
    }
}

/// What the resolution policy answers: in silent mode always the incumbent,
/// otherwise whatever the interactive choice picked.
pub open spec fn resolve_spec(config: Config, choice: Choice) -> ComparisonResult {
    if config.silent {
        ComparisonResult::KeepPrev
    } else {
        match choice {
            Choice::First => ComparisonResult::KeepPrev,
            Choice::Second => ComparisonResult::KeepEntry,
            Choice::Both => ComparisonResult::KeepBoth,
        }
    }
}

/// Given two entries previously judged to be probable duplicates, decides
/// which to keep. In silent mode the incumbent always wins and no prompt is
/// shown; otherwise `choice` carries the answer that the interactive
/// collaborator collected for this pair.
#[allow(unused_variables)]
pub fn decide_which_to_keep(prev_entry: &Record, entry: &Record, config: &Config, choice: Choice) -> (r:
    ComparisonResult)
    ensures
        r == resolve_spec(*config, choice),
{
    if config.silent {
        ComparisonResult::KeepPrev
    } else {
        match choice {
            Choice::First => ComparisonResult::KeepPrev,
            Choice::Second => ComparisonResult::KeepEntry,
            Choice::Both => ComparisonResult::KeepBoth,
        }
    }
}

/// One comparison of the merge scan: classification first, then resolution.
pub open spec fn compare_spec(
    prev: RecordView,
    entry: RecordView,
    config: Config,
    choice: Choice,
) -> ComparisonResult {
    match classify_spec(prev, entry, config) {
        Verdict::Identical => ComparisonResult::KeepPrev,
        Verdict::Duplicate => resolve_spec(config, choice),
        Verdict::Distinct => ComparisonResult::KeepBoth,
    }
}

/// Checks whether two entries are probable duplicates and, if so, decides
/// what to do with them. An `Identical` pair keeps the incumbent without
/// consulting the resolution policy; a `Distinct` pair keeps both records;
/// a `Duplicate` pair goes to [`decide_which_to_keep`], with `choice` as the
/// interactive answer for the pair (ignored in silent mode).
pub fn compare_entries(prev_entry: &Record, entry: &Record, config: &Config, choice: Choice) -> (r:
    ComparisonResult)
    ensures
        r == compare_spec(prev_entry@, entry@, *config, choice),
{
    match classify(prev_entry, entry, config) {
        Verdict::Identical => ComparisonResult::KeepPrev,
        Verdict::Duplicate => decide_which_to_keep(prev_entry, entry, config, choice),
        Verdict::Distinct => ComparisonResult::KeepBoth,
    }
}

/// Raising the similarity threshold never turns a `Distinct` pair into a
/// `Duplicate`; and raising it above the pair's similarity score makes a
/// pair that was `Duplicate` by the fuzzy-title rule alone `Distinct`.
pub proof fn lemma_threshold_monotonic(
    prev: RecordView,
    entry: RecordView,
    low: Config,
    high: Config,
)
    requires
        low.algorithm == high.algorithm,
        low.silent == high.silent,
        low.biblatex == high.biblatex,
        low.similarity_threshold <= high.similarity_threshold,
    ensures
        classify_spec(prev, entry, low) == Verdict::Distinct ==> classify_spec(prev, entry, high)
            == Verdict::Distinct,
        (classify_spec(prev, entry, low) == Verdict::Duplicate && prev != entry && prev.key
            != entry.key && !same_doi(prev, entry) && !same_title(prev, entry) && (match (
            prev.title,
            entry.title,
        ) {
            (Option::Some(a), Option::Some(b)) => high.similarity_threshold as int
                > similarity_ppm(low.algorithm, a, b),
            _ => false,
        })) ==> classify_spec(prev, entry, high) == Verdict::Distinct,
{
}

} // verus!
