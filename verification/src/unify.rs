use vstd::prelude::*;

use crate::bibliography::{contains_key, unique_keys, Bibliography};
use crate::classify::{classify, classify_spec, Choice, Verdict};
use crate::keys::{add_entry_to_bibliography, alloc_key, lemma_alloc_key_fresh};
use crate::record::{with_key, Record, RecordView};
use crate::Config;

verus! {

/// Every incumbent of `s` with position in `[from, to)` is `Distinct` from
/// `entry`.
pub open spec fn matches_none(
    s: Seq<RecordView>,
    entry: RecordView,
    config: Config,
    from: int,
    to: int,
) -> bool {
    forall|j: int| from <= j < to ==> classify_spec(s[j], entry, config) == Verdict::Distinct
}

/// Some incumbent of `s` is not `Distinct` from `entry`.
pub open spec fn has_match(s: Seq<RecordView>, entry: RecordView, config: Config) -> bool {
    exists|j: int| 0 <= j < s.len() && classify_spec(s[j], entry, config) != Verdict::Distinct
}

/// What one entry does to the target in silent mode: when any incumbent
/// matches, the incumbent wins, the entry is dropped and one duplicate is
/// counted; an entry with no match is appended under an allocated key.
pub open spec fn silent_merge_entry(
    target: Seq<RecordView>,
    entry: RecordView,
    config: Config,
) -> (Seq<RecordView>, int) {
    if has_match(target, entry, config) {
        (target, 1)
    } else {
        (target.push(with_key(entry, alloc_key(target, entry.key))), 0)
    }
}

/// Folds the records of one source collection into the target, in order,
/// in silent mode.
pub open spec fn silent_merge_seq(
    target: Seq<RecordView>,
    entries: Seq<RecordView>,
    config: Config,
) -> (Seq<RecordView>, int)
    decreases entries.len(),
{
    if entries.len() == 0 {
        (target, 0)
    } else {
        let step = silent_merge_entry(target, entries[0], config);
        let rest = silent_merge_seq(step.0, entries.drop_first(), config);
        (rest.0, step.1 + rest.1)
    }
}

/// Folds a sequence of source collections into the target, in order, in
/// silent mode.
pub open spec fn silent_merge_all(
    target: Seq<RecordView>,
    sources: Seq<Seq<RecordView>>,
    config: Config,
) -> (Seq<RecordView>, int)
    decreases sources.len(),
{
    if sources.len() == 0 {
        (target, 0)
    } else {
        let step = silent_merge_seq(target, sources[0], config);
        let rest = silent_merge_all(step.0, sources.drop_first(), config);
        (rest.0, step.1 + rest.1)
    }
}

/// What handling one entry came to.
#[derive(Debug)]
pub enum OfferOutcome {
    /// The entry was settled: dropped on a duplicate (`repetitions` is 1) or
    /// inserted (`repetitions` is 0).
    Settled { repetitions: u64 },
    /// The incumbent at `index` is a probable duplicate of `entry` and an
    /// interactive choice is needed; the target is untouched and the entry
    /// rides along. Hand both to [`resume_entry`] with the choice.
    Pending { entry: Record, index: usize },
}

/// What a scan of the target from position `start` on behalf of one entry
/// guarantees, `old_s` being the target before and `new_s` after.
///
/// A `Pending` outcome names the first incumbent from `start` on that is not
/// `Distinct`; it is a `Duplicate` needing a choice, and the target stands
/// untouched. A `Settled` outcome either dropped the entry at the first
/// non-`Distinct` incumbent — counting one duplicate; without an interactive
/// choice that happens only for an `Identical` incumbent or in silent mode —
/// or found no match at all and appended the entry under an allocated key.
pub open spec fn scan_post(
    old_s: Seq<RecordView>,
    new_s: Seq<RecordView>,
    entry: RecordView,
    config: Config,
    start: int,
    r: OfferOutcome,
) -> bool {
    match r {
        OfferOutcome::Pending { entry: e, index } => {
            &&& !config.silent
            &&& e@ == entry
            &&& new_s == old_s
            &&& start <= index < old_s.len()
            &&& classify_spec(old_s[index as int], entry, config) == Verdict::Duplicate
            &&& matches_none(old_s, entry, config, start, index as int)
        },
        OfferOutcome::Settled { repetitions } => {
            ||| {
                &&& repetitions == 1
                &&& new_s == old_s
                &&& exists|j: int|
                    #![auto]
                    {
                        &&& start <= j < old_s.len()
                        &&& matches_none(old_s, entry, config, start, j)
                        &&& classify_spec(old_s[j], entry, config) != Verdict::Distinct
                        &&& (classify_spec(old_s[j], entry, config) == Verdict::Identical
                            || config.silent)
                    }
            }
            ||| {
                &&& repetitions == 0
                &&& matches_none(old_s, entry, config, start, old_s.len() as int)
                &&& new_s == old_s.push(with_key(entry, alloc_key(old_s, entry.key)))
            }
        },
    }
}

fn scan_from(unified: &mut Bibliography, entry: Record, config: &Config, start: usize) -> (r:
    OfferOutcome)
    requires
        unique_keys(old(unified)@),
        old(unified)@.len() < u64::MAX,
        start <= old(unified)@.len(),
    ensures
        unique_keys(final(unified)@),
        scan_post(old(unified)@, final(unified)@, entry@, *config, start as int, r),
{
    let ghost s = old(unified)@;
    let n = unified.len();
    let mut j = start;
    while j < n
        invariant
            s == unified@,
            unique_keys(s),
            s.len() < u64::MAX,
            n == s.len(),
            start <= j <= n,
            matches_none(s, entry@, *config, start as int, j as int),
        decreases n - j,
    {
        let verdict = classify(unified.index(j), &entry, config);
        match verdict {
            Verdict::Distinct => {
                j += 1;
            },
            Verdict::Identical => {
                proof {
                    let jj = j as int;
                    assert(start <= jj < s.len() && matches_none(s, entry@, *config, start as int, jj)
                        && classify_spec(s[jj], entry@, *config) != Verdict::Distinct
                        && classify_spec(s[jj], entry@, *config) == Verdict::Identical);
                }
                return OfferOutcome::Settled { repetitions: 1 };
            },
            Verdict::Duplicate => {
                if config.silent {
                    proof {
                        let jj = j as int;
                        assert(start <= jj < s.len() && matches_none(
                            s,
                            entry@,
                            *config,
                            start as int,
                            jj,
                        ) && classify_spec(s[jj], entry@, *config) != Verdict::Distinct);
                    }
                    return OfferOutcome::Settled { repetitions: 1 };
                } else {
                    return OfferOutcome::Pending { entry, index: j };
                }
            },
        }
    }
    add_entry_to_bibliography(entry, unified);
    OfferOutcome::Settled { repetitions: 0 }
}

/// Offers one entry to the unified bibliography: scans the incumbents in
/// insertion order and stops at the first non-`Distinct` verdict. In silent
/// mode every entry is settled on the spot, as [`silent_merge_entry`] says;
/// otherwise a `Duplicate` verdict suspends the scan and asks the caller for
/// a choice (see [`OfferOutcome::Pending`]).
pub fn offer_entry(unified: &mut Bibliography, entry: Record, config: &Config) -> (r: OfferOutcome)
    requires
        unique_keys(old(unified)@),
        old(unified)@.len() < u64::MAX,
    ensures
        unique_keys(final(unified)@),
        scan_post(old(unified)@, final(unified)@, entry@, *config, 0, r),
        config.silent ==> match r {
            OfferOutcome::Settled { repetitions } => {
                let step = silent_merge_entry(old(unified)@, entry@, *config);
                final(unified)@ == step.0 && repetitions as int == step.1
            },
            OfferOutcome::Pending { .. } => false,
        },
{
    let r = scan_from(unified, entry, config, 0);
    proof {
        if config.silent {
            match r {
                OfferOutcome::Settled { repetitions } => {
                    if repetitions == 1 {
                        assert(has_match(old(unified)@, entry@, *config));
                    } else {
                        assert(matches_none(
                            old(unified)@,
                            entry@,
                            *config,
                            0,
                            old(unified)@.len() as int,
                        ));
                        assert(!has_match(old(unified)@, entry@, *config));
                    }
                },
                OfferOutcome::Pending { .. } => {},
            }
        }
    }
    r
}

proof fn lemma_remove_preserves_unique(s: Seq<RecordView>, i: int)
    requires
        0 <= i < s.len(),
        unique_keys(s),
    ensures
        unique_keys(s.remove(i)),
{
    let t = s.remove(i);
    assert forall|a: int, b: int| 0 <= a < b < t.len() implies t[a].key != t[b].key by {
        let oa = if a < i {
            a
        } else {
            a + 1
        };
        let ob = if b < i {
            b
        } else {
            b + 1
        };
        assert(t[a] == s[oa]);
        assert(t[b] == s[ob]);
    }
}

/// Applies an interactive choice to the pending duplicate that
/// [`offer_entry`] or an earlier `resume_entry` reported at `index`.
///
/// Keeping the first record drops the entry and counts one duplicate.
/// Keeping the second removes the incumbent — by its key, captured before
/// the removal — counts one duplicate, and inserts the entry under a key
/// allocated against the incumbent-free target. Keeping both resumes the
/// scan right after `index`: later incumbents are still checked, and the
/// entry is inserted only once the scan finds no further duplicate.
pub fn resume_entry(
    unified: &mut Bibliography,
    entry: Record,
    index: usize,
    choice: Choice,
    config: &Config,
) -> (r: OfferOutcome)
    requires
        unique_keys(old(unified)@),
        old(unified)@.len() < u64::MAX,
        !config.silent,
        index < old(unified)@.len(),
    ensures
        unique_keys(final(unified)@),
        choice == Choice::First ==> r == (OfferOutcome::Settled { repetitions: 1u64 })
            && final(unified)@ == old(unified)@,
        choice == Choice::Second ==> r == (OfferOutcome::Settled { repetitions: 1u64 }) && ({
            let removed = old(unified)@.remove(index as int);
            final(unified)@ == removed.push(with_key(entry@, alloc_key(removed, entry@.key)))
        }),
        choice == Choice::Both ==> scan_post(
            old(unified)@,
            final(unified)@,
            entry@,
            *config,
            index + 1,
            r,
        ),
{
    match choice {
        Choice::First => OfferOutcome::Settled { repetitions: 1 },
        Choice::Second => {
            let ghost s = old(unified)@;
            let prev_key = unified.index(index).key.clone();
            unified.remove(&prev_key);
            proof {
                let i = choose|i: int|
                    {
                        &&& 0 <= i < s.len()
                        &&& s[i].key == prev_key@
                        &&& (forall|j: int| 0 <= j < i ==> s[j].key != prev_key@)
                        &&& unified@ == s.remove(i)
                    };
                assert(s[index as int].key == prev_key@);
                assert(i == index as int);
                lemma_remove_preserves_unique(s, index as int);
            }
            add_entry_to_bibliography(entry, unified);
            OfferOutcome::Settled { repetitions: 1 }
        },
        Choice::Both => {
            let n = unified.len();
            assert(index < n);
            scan_from(unified, entry, config, index + 1)
        },
    }
}

proof fn lemma_silent_merge_seq_snoc(
    target: Seq<RecordView>,
    entries: Seq<RecordView>,
    e: RecordView,
    config: Config,
)
    ensures
        silent_merge_seq(target, entries.push(e), config) == ({
            let m = silent_merge_seq(target, entries, config);
            let st = silent_merge_entry(m.0, e, config);
            (st.0, m.1 + st.1)
        }),
    decreases entries.len(),
{
    let p = entries.push(e);
    if entries.len() == 0 {
        assert(p[0] == e);
        assert(p.drop_first() =~= Seq::<RecordView>::empty());
        let st = silent_merge_entry(target, e, config);
        assert(silent_merge_seq(st.0, p.drop_first(), config) == (st.0, 0int));
        assert(silent_merge_seq(target, entries, config) == (target, 0int));
    } else {
        assert(p[0] == entries[0]);
        assert(p.drop_first() =~= entries.drop_first().push(e));
        lemma_silent_merge_seq_snoc(
            silent_merge_entry(target, entries[0], config).0,
            entries.drop_first(),
            e,
            config,
        );
    }
}

proof fn lemma_silent_merge_seq_bounds(
    target: Seq<RecordView>,
    entries: Seq<RecordView>,
    config: Config,
)
    ensures
        0 <= silent_merge_seq(target, entries, config).1 <= entries.len(),
        target.len() <= silent_merge_seq(target, entries, config).0.len() <= target.len()
            + entries.len(),
    decreases entries.len(),
{
    if entries.len() > 0 {
        lemma_silent_merge_seq_bounds(
            silent_merge_entry(target, entries[0], config).0,
            entries.drop_first(),
            config,
        );
    }
}

proof fn lemma_silent_merge_entry_unique(target: Seq<RecordView>, e: RecordView, config: Config)
    requires
        unique_keys(target),
    ensures
        unique_keys(silent_merge_entry(target, e, config).0),
{
    if !has_match(target, e, config) {
        lemma_alloc_key_fresh(target, e.key);
        let k = alloc_key(target, e.key);
        let t = target.push(with_key(e, k));
        assert forall|i: int, j: int| 0 <= i < j < t.len() implies t[i].key != t[j].key by {
            if j == t.len() - 1 {
                if t[i].key == k {
                    assert(contains_key(target, k));
                }
            }
        }
    }
}

proof fn lemma_silent_merge_seq_unique(
    target: Seq<RecordView>,
    entries: Seq<RecordView>,
    config: Config,
)
    requires
        unique_keys(target),
    ensures
        unique_keys(silent_merge_seq(target, entries, config).0),
    decreases entries.len(),
{
    if entries.len() > 0 {
        lemma_silent_merge_entry_unique(target, entries[0], config);
        lemma_silent_merge_seq_unique(
            silent_merge_entry(target, entries[0], config).0,
            entries.drop_first(),
            config,
        );
    }
}

/// Adds a source bibliography to the unified bibliography, consuming it and
/// checking for repetitions in the process, in silent mode: every probable
/// duplicate keeps the incumbent. Returns how many duplicates were dropped,
/// as [`silent_merge_seq`] says.
pub fn add_bibliography_to_unified(
    to_add: Bibliography,
    unified: &mut Bibliography,
    config: &Config,
) -> (repetitions: u64)
    requires
        config.silent,
        unique_keys(old(unified)@),
        old(unified)@.len() + to_add@.len() < u64::MAX,
    ensures
        unique_keys(final(unified)@),
        final(unified)@ == silent_merge_seq(old(unified)@, to_add@, *config).0,
        repetitions as int == silent_merge_seq(old(unified)@, to_add@, *config).1,
{
    let ghost s0 = old(unified)@;
    let ghost entries = to_add@;
    let mut records = to_add.into_records();
    let total = records.len();
    let mut repetitions: u64 = 0;
    while records.len() > 0
        invariant
            config.silent,
            s0.len() + entries.len() < u64::MAX,
            total == entries.len(),
            records@.len() <= total,
            forall|k: int|
                0 <= k < records@.len() ==> records@[k]@ == entries[total - records@.len() + k],
            unique_keys(unified@),
            unified@ == silent_merge_seq(s0, entries.take(total - records@.len()), *config).0,
            repetitions as int == silent_merge_seq(
                s0,
                entries.take(total - records@.len()),
                *config,
            ).1,
        decreases records@.len(),
    {
        let ghost done = entries.take(total - records@.len());
        let entry = records.remove(0);
        assert(entry@ == entries[done.len() as int]);
        proof {
            lemma_silent_merge_seq_bounds(s0, done, *config);
        }
        let r = offer_entry(unified, entry, config);
        proof {
            lemma_silent_merge_seq_snoc(s0, done, entry@, *config);
            assert(entries.take(done.len() as int + 1) =~= done.push(entry@));
            lemma_silent_merge_seq_bounds(s0, done.push(entry@), *config);
        }
        match r {
            OfferOutcome::Settled { repetitions: rep } => {
                repetitions = repetitions + rep;
            },
            OfferOutcome::Pending { .. } => {
                proof {
                    assert(false);
                }
            },
        }
    }
    proof {
        assert(entries.take(total as int) =~= entries);
    }
    repetitions
}

/// The views of a sequence of bibliographies.
pub open spec fn views_of(bs: Seq<Bibliography>) -> Seq<Seq<RecordView>> {
    bs.map_values(|b: Bibliography| b@)
}

/// The total number of records over a sequence of source collections.
pub open spec fn total_len(sources: Seq<Seq<RecordView>>) -> int
    decreases sources.len(),
{
    if sources.len() == 0 {
        0
    } else {
        sources[0].len() + total_len(sources.drop_first())
    }
}

proof fn lemma_total_len_split(sources: Seq<Seq<RecordView>>, i: int)
    requires
        0 <= i <= sources.len(),
    ensures
        total_len(sources) == total_len(sources.take(i)) + total_len(sources.skip(i)),
    decreases sources.len(),
{
    if i == 0 {
        assert(sources.take(0) =~= Seq::<Seq<RecordView>>::empty());
        assert(sources.skip(0) =~= sources);
    } else {
        assert(sources.take(i)[0] == sources[0]);
        assert(sources.take(i).drop_first() =~= sources.drop_first().take(i - 1));
        assert(sources.skip(i) =~= sources.drop_first().skip(i - 1));
        lemma_total_len_split(sources.drop_first(), i - 1);
    }
}

proof fn lemma_total_len_nonneg(sources: Seq<Seq<RecordView>>)
    ensures
        total_len(sources) >= 0,
    decreases sources.len(),
{
    if sources.len() > 0 {
        lemma_total_len_nonneg(sources.drop_first());
    }
}

proof fn lemma_silent_merge_all_snoc(
    target: Seq<RecordView>,
    sources: Seq<Seq<RecordView>>,
    src: Seq<RecordView>,
    config: Config,
)
    ensures
        silent_merge_all(target, sources.push(src), config) == ({
            let m = silent_merge_all(target, sources, config);
            let st = silent_merge_seq(m.0, src, config);
            (st.0, m.1 + st.1)
        }),
    decreases sources.len(),
{
    let p = sources.push(src);
    if sources.len() == 0 {
        assert(p[0] == src);
        assert(p.drop_first() =~= Seq::<Seq<RecordView>>::empty());
        let st = silent_merge_seq(target, src, config);
        assert(silent_merge_all(st.0, p.drop_first(), config) == (st.0, 0int));
        assert(silent_merge_all(target, sources, config) == (target, 0int));
    } else {
        assert(p[0] == sources[0]);
        assert(p.drop_first() =~= sources.drop_first().push(src));
        lemma_silent_merge_all_snoc(
            silent_merge_seq(target, sources[0], config).0,
            sources.drop_first(),
            src,
            config,
        );
    }
}

proof fn lemma_silent_merge_all_bounds(
    target: Seq<RecordView>,
    sources: Seq<Seq<RecordView>>,
    config: Config,
)
    ensures
        0 <= silent_merge_all(target, sources, config).1 <= total_len(sources),
        target.len() <= silent_merge_all(target, sources, config).0.len() <= target.len()
            + total_len(sources),
    decreases sources.len(),
{
    if sources.len() == 0 {
    } else {
        lemma_silent_merge_seq_bounds(target, sources[0], config);
        lemma_silent_merge_all_bounds(
            silent_merge_seq(target, sources[0], config).0,
            sources.drop_first(),
            config,
        );
        lemma_total_len_nonneg(sources.drop_first());
    }
}

/// Takes a vector of source bibliographies and returns a single bibliography
/// with repetitions deleted, together with the number of repetitions found,
/// in silent mode: every probable duplicate keeps the incumbent.
pub fn unify_bibliography(bibliographies: Vec<Bibliography>, config: &Config) -> (r: (
    Bibliography,
    u64,
))
    requires
        config.silent,
        total_len(views_of(bibliographies@)) < u64::MAX,
    ensures
        unique_keys(r.0@),
        r.0@ == silent_merge_all(
            Seq::<RecordView>::empty(),
            views_of(bibliographies@),
            *config,
        ).0,
        r.1 as int == silent_merge_all(
            Seq::<RecordView>::empty(),
            views_of(bibliographies@),
            *config,
        ).1,
{
    let ghost srcs = views_of(bibliographies@);
    let mut bibs = bibliographies;
    let mut unified = Bibliography::new();
    let mut repetitions: u64 = 0;
    let total = bibs.len();
    while bibs.len() > 0
        invariant
            config.silent,
            total == srcs.len(),
            bibs@.len() <= total,
            forall|k: int| 0 <= k < bibs@.len() ==> bibs@[k]@ == srcs[total - bibs@.len() + k],
            total_len(srcs) < u64::MAX,
            unique_keys(unified@),
            unified@ == silent_merge_all(
                Seq::<RecordView>::empty(),
                srcs.take(total - bibs@.len()),
                *config,
            ).0,
            repetitions as int == silent_merge_all(
                Seq::<RecordView>::empty(),
                srcs.take(total - bibs@.len()),
                *config,
            ).1,
        decreases bibs@.len(),
    {
        let ghost done = srcs.take(total - bibs@.len());
        let ghost i = done.len() as int;
        let b = bibs.remove(0);
        assert(b@ == srcs[i]);
        proof {
            lemma_silent_merge_all_bounds(Seq::<RecordView>::empty(), done, *config);
            lemma_total_len_split(srcs, i);
            lemma_total_len_split(srcs.skip(i), 1);
            assert(srcs.skip(i).take(1) =~= seq![srcs[i]]);
            assert(total_len(seq![srcs[i]]) == srcs[i].len() + total_len(
                seq![srcs[i]].drop_first(),
            ));
            assert(seq![srcs[i]].drop_first() =~= Seq::<Seq<RecordView>>::empty());
            lemma_total_len_nonneg(srcs.skip(i).skip(1));
            lemma_total_len_nonneg(done);
            assert(total_len(done) + srcs[i].len() <= total_len(srcs));
        }
        let reps = add_bibliography_to_unified(b, &mut unified, config);
        proof {
            lemma_silent_merge_all_snoc(Seq::<RecordView>::empty(), done, b@, *config);
            assert(srcs.take(i + 1) =~= done.push(b@));
            lemma_silent_merge_all_bounds(Seq::<RecordView>::empty(), done.push(b@), *config);
            assert(total_len(done.push(b@)) <= total_len(srcs)) by {
                assert(done.push(b@) =~= srcs.take(i + 1));
                lemma_total_len_split(srcs, i + 1);
                lemma_total_len_nonneg(srcs.skip(i + 1));
            }
        }
        repetitions = repetitions + reps;
    }
    proof {
        assert(srcs.take(total as int) =~= srcs);
    }
    (unified, repetitions)
}

proof fn lemma_silent_merge_seq_prefix(
    target: Seq<RecordView>,
    entries: Seq<RecordView>,
    config: Config,
)
    ensures
        silent_merge_seq(target, entries, config).0.len() >= target.len(),
        forall|i: int|
            0 <= i < target.len() ==> silent_merge_seq(target, entries, config).0[i] == target[i],
    decreases entries.len(),
{
    if entries.len() > 0 {
        let t1 = silent_merge_entry(target, entries[0], config).0;
        lemma_silent_merge_seq_prefix(t1, entries.drop_first(), config);
        let m = silent_merge_seq(target, entries, config).0;
        assert(m == silent_merge_seq(t1, entries.drop_first(), config).0);
        assert forall|i: int| 0 <= i < target.len() implies m[i] == target[i] by {
            assert(t1[i] == target[i]);
            assert(m[i] == t1[i]);
        }
    }
}

proof fn lemma_all_match_after(target: Seq<RecordView>, source: Seq<RecordView>, config: Config)
    ensures
        forall|k: int|
            0 <= k < source.len() ==> has_match(
                silent_merge_seq(target, source, config).0,
                source[k],
                config,
            ),
    decreases source.len(),
{
    if source.len() > 0 {
        let e = source[0];
        let t1 = silent_merge_entry(target, e, config).0;
        let fin = silent_merge_seq(t1, source.drop_first(), config).0;
        assert(silent_merge_seq(target, source, config).0 == fin);
        assert(has_match(t1, e, config)) by {
            if has_match(target, e, config) {
                let j = choose|j: int|
                    0 <= j < target.len() && classify_spec(target[j], e, config)
                        != Verdict::Distinct;
                assert(t1[j] == target[j]);
            } else {
                assert(!contains_key(target, e.key)) by {
                    if contains_key(target, e.key) {
                        let j = choose|j: int| 0 <= j < target.len() && target[j].key == e.key;
                        assert(classify_spec(target[j], e, config) != Verdict::Distinct);
                        assert(has_match(target, e, config));
                    }
                }
                assert(alloc_key(target, e.key) == e.key);
                assert(with_key(e, e.key) =~= e);
                assert(t1 == target.push(e));
                assert(t1[target.len() as int] == e);
                assert(classify_spec(e, e, config) == Verdict::Identical);
            }
        }
        lemma_silent_merge_seq_prefix(t1, source.drop_first(), config);
        assert(has_match(fin, e, config)) by {
            let j = choose|j: int|
                0 <= j < t1.len() && classify_spec(t1[j], e, config) != Verdict::Distinct;
            assert(fin[j] == t1[j]);
        }
        lemma_all_match_after(t1, source.drop_first(), config);
        assert forall|k: int| 0 <= k < source.len() implies has_match(fin, source[k], config) by {
            if k > 0 {
                assert(source.drop_first()[k - 1] == source[k]);
            }
        }
    }
}

proof fn lemma_merge_matched(target: Seq<RecordView>, source: Seq<RecordView>, config: Config)
    requires
        forall|k: int| 0 <= k < source.len() ==> has_match(target, source[k], config),
    ensures
        silent_merge_seq(target, source, config) == (target, source.len() as int),
    decreases source.len(),
{
    if source.len() > 0 {
        assert(has_match(target, source[0], config));
        assert(silent_merge_entry(target, source[0], config) == (target, 1int));
        assert forall|k: int| 0 <= k < source.drop_first().len() implies has_match(
            target,
            source.drop_first()[k],
            config,
        ) by {
            assert(source.drop_first()[k] == source[k + 1]);
        }
        lemma_merge_matched(target, source.drop_first(), config);
    }
}

/// Idempotence of the silent merge: after a source collection is merged into
/// an empty target, merging an identical copy of that collection into the
/// result changes nothing, and every record of the copy is counted as a
/// duplicate.
pub proof fn lemma_merge_idempotent(source: Seq<RecordView>, config: Config)
    ensures
        ({
            let first = silent_merge_seq(Seq::<RecordView>::empty(), source, config);
            let second = silent_merge_seq(first.0, source, config);
            &&& second.0 == first.0
            &&& second.1 == source.len()
        }),
{
    let first = silent_merge_seq(Seq::<RecordView>::empty(), source, config);
    lemma_all_match_after(Seq::<RecordView>::empty(), source, config);
    lemma_merge_matched(first.0, source, config);
}

proof fn lemma_silent_merge_all_unique(
    target: Seq<RecordView>,
    sources: Seq<Seq<RecordView>>,
    config: Config,
)
    requires
        unique_keys(target),
    ensures
        unique_keys(silent_merge_all(target, sources, config).0),
    decreases sources.len(),
{
    if sources.len() > 0 {
        lemma_silent_merge_seq_unique(target, sources[0], config);
        lemma_silent_merge_all_unique(
            silent_merge_seq(target, sources[0], config).0,
            sources.drop_first(),
            config,
        );
    }
}

/// Identifier uniqueness: whatever sources a silent merge folds into an
/// empty target, no two records of the result share a citation key.
pub proof fn lemma_merge_all_unique_keys(sources: Seq<Seq<RecordView>>, config: Config)
    ensures
        unique_keys(silent_merge_all(Seq::<RecordView>::empty(), sources, config).0),
{
    lemma_silent_merge_all_unique(Seq::<RecordView>::empty(), sources, config);
}

} // verus!
