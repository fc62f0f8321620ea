use bib_unifier::{
    add_bibliography_to_unified, add_entry_to_bibliography, classify, offer_entry, resume_entry,
    unify_bibliography, Algorithm, Bibliography, Choice, Config, OfferOutcome, Record, Verdict,
};

fn rec(key: &str, title: Option<&str>, doi: Option<&str>) -> Record {
    Record {
        key: key.to_string(),
        title: title.map(|s| s.to_string()),
        doi: doi.map(|s| s.to_string()),
        extra: Vec::new(),
    }
}

fn config(threshold_ppm: u64, silent: bool) -> Config {
    Config {
        similarity_threshold: threshold_ppm,
        algorithm: Algorithm::Levenshtein,
        silent,
        biblatex: false,
    }
}

fn all_keys(bib: &Bibliography) -> Vec<String> {
    let mut keys = Vec::new();
    let mut i = 0;
    while i < bib.len() {
        keys.push(bib.index(i).key.clone());
        i += 1;
    }
    keys
}

/// Merging a collection into an empty target and then an identical copy into
/// the result leaves the target unchanged, and the second merge counts every
/// record of the copy as a duplicate.
#[test]
fn merge_is_idempotent() {
    let source = || {
        let mut b = Bibliography::new();
        b.push(rec("A", Some("First Title"), None));
        b.push(rec("B", Some("Second Title"), None));
        // an internal repetition of A
        b.push(rec("A", Some("First Title"), None));
        b
    };
    let cfg = config(1_000_000, true);
    let mut target = Bibliography::new();
    let first = add_bibliography_to_unified(source(), &mut target, &cfg);
    assert_eq!(first, 1);
    assert_eq!(target.len(), 2);
    let second = add_bibliography_to_unified(source(), &mut target, &cfg);
    assert_eq!(second, 3);
    assert_eq!(target.len(), 2);
}

/// Scenario: the target holds {X, "Same Title"}; a one-record source
/// {Y, "Same Title"} merges silently with fuzzy matching disabled.
#[test]
fn same_title_keeps_incumbent() {
    let cfg = config(1_000_000, true);
    let mut target = Bibliography::new();
    target.push(rec("X", Some("Same Title"), None));
    let mut source = Bibliography::new();
    source.push(rec("Y", Some("Same Title"), None));

    let repetitions = add_bibliography_to_unified(source, &mut target, &cfg);
    assert_eq!(repetitions, 1);
    assert_eq!(target.len(), 1);
    assert_eq!(target.index(0).key, "X".to_string());
}

/// Scenario: as above, but the resolution chooses the candidate, so the
/// incumbent goes and the candidate stands under its own identifier.
#[test]
fn same_title_keep_candidate() {
    let cfg = config(1_000_000, false);
    let mut target = Bibliography::new();
    target.push(rec("X", Some("Same Title"), None));

    let outcome = offer_entry(&mut target, rec("Y", Some("Same Title"), None), &cfg);
    let (entry, index) = match outcome {
        OfferOutcome::Pending { entry, index } => (entry, index),
        OfferOutcome::Settled { .. } => panic!("expected a pending duplicate"),
    };
    assert_eq!(index, 0);
    let outcome = resume_entry(&mut target, entry, index, Choice::Second, &cfg);
    match outcome {
        OfferOutcome::Settled { repetitions } => assert_eq!(repetitions, 1),
        OfferOutcome::Pending { .. } => panic!("expected the entry to settle"),
    }
    assert_eq!(target.len(), 1);
    assert_eq!(target.index(0).key, "Y".to_string());
}

/// Scenario: a record with the incumbent's identifier but a different title
/// is a probable duplicate by the identifier rule alone.
#[test]
fn same_key_different_title_is_duplicate() {
    let cfg = config(1_000_000, true);
    let incumbent = rec("A", None, None);
    let candidate = rec("A", Some("Different"), None);
    assert_eq!(classify(&incumbent, &candidate, &cfg), Verdict::Duplicate);
}

/// Scenario: a fresh record whose identifier is already taken enters under
/// identifier_1; the next one under identifier_2.
#[test]
fn taken_identifier_gets_suffix() {
    let mut target = Bibliography::new();
    target.push(rec("Roffe2021", Some("One Paper"), None));
    add_entry_to_bibliography(rec("Roffe2021", Some("Another Paper"), None), &mut target);
    assert_eq!(target.len(), 2);
    assert_eq!(target.index(1).key, "Roffe2021_1".to_string());
    add_entry_to_bibliography(rec("Roffe2021", Some("A Third Paper"), None), &mut target);
    assert_eq!(target.index(2).key, "Roffe2021_2".to_string());
}

/// A candidate that matches two incumbents: keeping both at the first match
/// lets the scan reach the second incumbent; any other answer ends the scan.
#[test]
fn keep_both_continues_the_scan() {
    let cfg = config(1_000_000, false);
    let build_target = || {
        let mut t = Bibliography::new();
        t.push(rec("I1", Some("Shared Title"), None));
        t.push(rec("I2", None, Some("10.1000/shared")));
        t
    };
    let candidate = || rec("C", Some("Shared Title"), Some("10.1000/shared"));

    // Keeping both at the first match: the second incumbent is classified
    // too, and reported as the next pending duplicate.
    let mut target = build_target();
    let outcome = offer_entry(&mut target, candidate(), &cfg);
    let (entry, index) = match outcome {
        OfferOutcome::Pending { entry, index } => (entry, index),
        OfferOutcome::Settled { .. } => panic!("expected a pending duplicate"),
    };
    assert_eq!(index, 0);
    let outcome = resume_entry(&mut target, entry, index, Choice::Both, &cfg);
    let (entry, index) = match outcome {
        OfferOutcome::Pending { entry, index } => (entry, index),
        OfferOutcome::Settled { .. } => panic!("expected a second pending duplicate"),
    };
    assert_eq!(index, 1);
    // Keeping both again: the scan is over and the candidate is inserted.
    let outcome = resume_entry(&mut target, entry, index, Choice::Both, &cfg);
    match outcome {
        OfferOutcome::Settled { repetitions } => assert_eq!(repetitions, 0),
        OfferOutcome::Pending { .. } => panic!("expected the entry to settle"),
    }
    assert_eq!(target.len(), 3);

    // Any other answer at the first match ends the scan: the target is
    // untouched and the candidate is gone.
    let mut target = build_target();
    let outcome = offer_entry(&mut target, candidate(), &cfg);
    let (entry, index) = match outcome {
        OfferOutcome::Pending { entry, index } => (entry, index),
        OfferOutcome::Settled { .. } => panic!("expected a pending duplicate"),
    };
    let outcome = resume_entry(&mut target, entry, index, Choice::First, &cfg);
    match outcome {
        OfferOutcome::Settled { repetitions } => assert_eq!(repetitions, 1),
        OfferOutcome::Pending { .. } => panic!("expected the entry to settle"),
    }
    assert_eq!(target.len(), 2);
}

/// Keeping both when the candidate's identifier collides with the very
/// incumbent it was compared against allocates a fresh identifier.
#[test]
fn keep_both_with_same_key_allocates() {
    let cfg = config(1_000_000, false);
    let mut target = Bibliography::new();
    target.push(rec("X", Some("One Title"), None));

    let outcome = offer_entry(&mut target, rec("X", Some("Other Title"), None), &cfg);
    let (entry, index) = match outcome {
        OfferOutcome::Pending { entry, index } => (entry, index),
        OfferOutcome::Settled { .. } => panic!("expected a pending duplicate"),
    };
    let outcome = resume_entry(&mut target, entry, index, Choice::Both, &cfg);
    match outcome {
        OfferOutcome::Settled { repetitions } => assert_eq!(repetitions, 0),
        OfferOutcome::Pending { .. } => panic!("expected the entry to settle"),
    }
    assert_eq!(all_keys(&target), vec!["X".to_string(), "X_1".to_string()]);
}

/// After a whole merge every identifier in the result is unique, also when
/// kept-both records keep colliding on the same identifier.
#[test]
fn merged_identifiers_are_unique() {
    let cfg = config(1_000_000, false);
    let mut target = Bibliography::new();
    target.push(rec("K", Some("Alpha"), None));

    for title in ["Beta", "Gamma"] {
        let mut outcome = offer_entry(&mut target, rec("K", Some(title), None), &cfg);
        loop {
            match outcome {
                OfferOutcome::Pending { entry, index } => {
                    outcome = resume_entry(&mut target, entry, index, Choice::Both, &cfg);
                },
                OfferOutcome::Settled { repetitions } => {
                    assert_eq!(repetitions, 0);
                    break;
                },
            }
        }
    }
    assert_eq!(
        all_keys(&target),
        vec!["K".to_string(), "K_1".to_string(), "K_2".to_string()]
    );
}

/// An empty doi or title is no ground for the equality rules, though two
/// present (if empty) titles still meet the fuzzy rule once it is enabled.
#[test]
fn empty_fields_disable_the_equality_rules() {
    let a = rec("A", Some(""), Some(""));
    let b = rec("B", Some(""), Some(""));
    let exact = config(1_000_000, true);
    assert_eq!(classify(&a, &b, &exact), Verdict::Distinct);
    let fuzzy = config(700_000, true);
    assert_eq!(classify(&a, &b, &fuzzy), Verdict::Duplicate);
}

/// The whole driver sums the duplicates found over all the sources.
#[test]
fn unify_sums_repetitions() {
    let cfg = config(1_000_000, true);
    let mut one = Bibliography::new();
    one.push(rec("A", Some("First Title"), None));
    one.push(rec("B", Some("Second Title"), None));
    let mut two = Bibliography::new();
    two.push(rec("A", Some("First Title"), None));
    two.push(rec("C", Some("Third Title"), None));
    let mut three = Bibliography::new();
    three.push(rec("B", Some("Second Title"), None));

    let (merged, repetitions) = unify_bibliography(vec![one, two, three], &cfg);
    assert_eq!(merged.len(), 3);
    assert_eq!(repetitions, 2);
}
