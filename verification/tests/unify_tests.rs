use bib_unifier::{
    add_bibliography_to_unified, add_entry_to_bibliography, compare_entries, get_new_citation_key,
    Algorithm, Bibliography, Choice, ComparisonResult, Config, Field, Record,
};

fn rec(key: &str, title: Option<&str>, doi: Option<&str>) -> Record {
    Record {
        key: key.to_string(),
        title: title.map(|s| s.to_string()),
        doi: doi.map(|s| s.to_string()),
        extra: Vec::new(),
    }
}

fn rec_with_extra(key: &str, title: Option<&str>, doi: Option<&str>, extra: &[(&str, &str)]) -> Record {
    Record {
        key: key.to_string(),
        title: title.map(|s| s.to_string()),
        doi: doi.map(|s| s.to_string()),
        extra: extra
            .iter()
            .map(|(n, v)| Field { name: n.to_string(), value: v.to_string() })
            .collect(),
    }
}

fn silent_config() -> Config {
    Config {
        similarity_threshold: 1_000_000,
        algorithm: Algorithm::Levenshtein,
        silent: true,
        biblatex: false,
    }
}

/// Six distinct records standing in for one parsed source collection.
fn setup_bibliography() -> Bibliography {
    let mut bib = Bibliography::new();
    let cfg = silent_config();
    let records = vec![
        rec_with_extra(
            "Montague1973QuantificationOrdinaryEnglish",
            Some("The Proper Treatment of Quantification in Ordinary English"),
            None,
            &[("author", "Montague, Richard"), ("year", "1973")],
        ),
        rec_with_extra(
            "FregeGrundlagen",
            Some("Die Grundlagen der Arithmetik"),
            None,
            &[("author", "Frege, Gottlob")],
        ),
        rec(
            "Hardegree2005completeness",
            Some("Completeness and Super-Valuations"),
            Some("10.1007/s10992-004-6298-y"),
        ),
        rec("Prior1960", Some("The Runabout Inference-Ticket"), None),
        rec("Carnap1942", Some("Introduction to Semantics"), None),
        rec("Quine1951TwoDogmas", Some("Two Dogmas of Empiricism"), None),
    ];
    for r in records {
        add_entry_to_bibliography(r, &mut bib);
    }
    bib
}

#[test]
fn test_add_to_unified() {
    let bibliography1 = setup_bibliography();
    let bibliography1_copy = setup_bibliography();
    let config = silent_config();
    let mut unified_bibliography = Bibliography::new();

    let repetitions =
        add_bibliography_to_unified(bibliography1, &mut unified_bibliography, &config);
    assert_eq!(unified_bibliography.len(), 6);
    assert_eq!(repetitions, 0);

    // If we attempt to add bibliography1 again, we should not get any new entries
    let repetitions2 =
        add_bibliography_to_unified(bibliography1_copy, &mut unified_bibliography, &config);
    assert_eq!(unified_bibliography.len(), 6);
    assert_eq!(repetitions2, 6);
}

#[test]
fn test_get_new_citation_key() {
    let mut bibliography1 = setup_bibliography();

    assert_eq!(
        get_new_citation_key("Carnap1942", &bibliography1),
        String::from("Carnap1942_1")
    );

    // Insert a record under the key Carnap1942_1 as well
    let carnap2 = rec("Carnap1942_1", Some("Introduction to Semantics"), None);
    bibliography1.push(carnap2);
    // Now get_new_citation_key should return "Carnap1942_2"
    assert_eq!(
        get_new_citation_key("Carnap1942", &bibliography1),
        String::from("Carnap1942_2")
    );
}

#[test]
fn test_rep_in_file() {
    // A source that repeats one of its own records.
    let mut source = Bibliography::new();
    source.push(rec("Prior1960", Some("The Runabout Inference-Ticket"), None));
    source.push(rec("Quine1951TwoDogmas", Some("Two Dogmas of Empiricism"), None));
    source.push(rec("Prior1960", Some("The Runabout Inference-Ticket"), None));
    let config = silent_config();
    let mut bibliography = Bibliography::new();

    assert_eq!(
        add_bibliography_to_unified(source, &mut bibliography, &config),
        1
    );
    assert_eq!(bibliography.len(), 2);
}

#[test]
fn test_all_same_fields() {
    let mut bibliography1 = setup_bibliography();
    let config = silent_config();

    let montague2 = rec_with_extra(
        "Montague1973QuantificationOrdinaryEnglish",
        Some("The Proper Treatment of Quantification in Ordinary English"),
        None,
        &[("author", "Montague, Richard"), ("year", "1973")],
    );
    let montague1 = bibliography1
        .get(&"Montague1973QuantificationOrdinaryEnglish".to_string())
        .unwrap();
    assert_eq!(
        compare_entries(montague1, &montague2, &config, Choice::First),
        ComparisonResult::KeepPrev
    );

    let mut bibliography2 = Bibliography::new();
    bibliography2.push(montague2);
    assert_eq!(
        add_bibliography_to_unified(bibliography2, &mut bibliography1, &config),
        1
    );
    assert_eq!(bibliography1.len(), 6);
}

#[test]
fn test_only_same_key() {
    let mut bibliography1 = setup_bibliography();
    let config = silent_config();

    let frege2 = rec_with_extra(
        "FregeGrundlagen",
        Some("The Foundations of Arithmetic"),
        None,
        &[("author", "Frege, Gottlob"), ("translator", "Austin, J. L.")],
    );
    let frege1 = bibliography1.get(&"FregeGrundlagen".to_string()).unwrap();
    assert_eq!(
        compare_entries(frege1, &frege2, &config, Choice::First),
        ComparisonResult::KeepPrev
    );

    let mut bibliography2 = Bibliography::new();
    bibliography2.push(frege2);
    assert_eq!(
        add_bibliography_to_unified(bibliography2, &mut bibliography1, &config),
        1
    );
}

#[test]
fn test_only_same_doi() {
    let mut bibliography1 = setup_bibliography();
    let config = silent_config();

    let hardegree2 = rec(
        "Hardegree2005completeness1",
        Some("Completeness and Super-Valuations (reprint)"),
        Some("10.1007/s10992-004-6298-y"),
    );
    let hardegree1 = bibliography1
        .get(&"Hardegree2005completeness".to_string())
        .unwrap();
    assert_eq!(
        compare_entries(hardegree1, &hardegree2, &config, Choice::First),
        ComparisonResult::KeepPrev
    );

    let mut bibliography2 = Bibliography::new();
    bibliography2.push(hardegree2);
    assert_eq!(
        add_bibliography_to_unified(bibliography2, &mut bibliography1, &config),
        1
    );
}

#[test]
fn test_only_same_title() {
    let mut bibliography1 = setup_bibliography();
    let config = silent_config();

    let prior2 = rec("Prior1961", Some("The Runabout Inference-Ticket"), None);
    let prior1 = bibliography1.get(&"Prior1960".to_string()).unwrap();
    assert_eq!(
        compare_entries(prior1, &prior2, &config, Choice::First),
        ComparisonResult::KeepPrev
    );

    let mut bibliography2 = Bibliography::new();
    bibliography2.push(prior2);
    assert_eq!(
        add_bibliography_to_unified(bibliography2, &mut bibliography1, &config),
        1
    );
}

#[test]
fn test_similar_title() {
    let mut bibliography1 = setup_bibliography();
    let mut config = silent_config();

    // One letter apart from "Introduction to Semantics": similarity is high
    // but below 1, so a threshold of 1 keeps both.
    let carnap2 = rec("Carnap1942_1", Some("Introduction to Semantycs"), None);
    let carnap1 = bibliography1.get(&"Carnap1942".to_string()).unwrap();
    assert_eq!(
        compare_entries(carnap1, &carnap2, &config, Choice::First),
        ComparisonResult::KeepBoth
    );

    // With a similarity threshold of 0.7, it should keep only the first.
    config.similarity_threshold = 700_000;
    let carnap1 = bibliography1.get(&"Carnap1942".to_string()).unwrap();
    assert_eq!(
        compare_entries(carnap1, &carnap2, &config, Choice::First),
        ComparisonResult::KeepPrev
    );

    let mut bibliography2 = Bibliography::new();
    bibliography2.push(carnap2);
    bibliography2.push(rec("Prior1999", Some("The Runabout Inference-Ticket"), None));
    assert_eq!(
        add_bibliography_to_unified(bibliography2, &mut bibliography1, &config),
        2
    );
    assert_eq!(bibliography1.len(), 6);
}
