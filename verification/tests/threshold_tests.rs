use bib_unifier::{include_path, parse_threshold_ppm, validate_threshold};

#[test]
fn accepts_plain_decimals_between_zero_and_one() {
    assert!(validate_threshold("0").is_ok());
    assert!(validate_threshold("1").is_ok());
    assert!(validate_threshold("0.75").is_ok());
    assert!(validate_threshold("1.0").is_ok());
    assert!(validate_threshold("1.000").is_ok());
    assert!(validate_threshold(".5").is_ok());
    assert!(validate_threshold("0.").is_ok());
    assert!(validate_threshold("0.9999999").is_ok());
}

#[test]
fn rejects_out_of_range_and_malformed_strings() {
    assert!(validate_threshold("").is_err());
    assert!(validate_threshold(".").is_err());
    assert!(validate_threshold("2").is_err());
    assert!(validate_threshold("1.5").is_err());
    assert!(validate_threshold("1.000001").is_err());
    assert!(validate_threshold("10").is_err());
    assert!(validate_threshold("-0.1").is_err());
    assert!(validate_threshold("0.7.5").is_err());
    assert!(validate_threshold("abc").is_err());
    assert!(validate_threshold("0.7a").is_err());
    assert!(validate_threshold("1e-3").is_err());
    assert!(validate_threshold(" 0.5").is_err());
    assert!(validate_threshold("0,5").is_err());
}

#[test]
fn invalid_threshold_names_the_rule() {
    match validate_threshold("1.5") {
        Ok(()) => panic!("1.5 is out of range"),
        Err(message) => assert_eq!(
            message,
            "Threshold must be a valid number between 0 and 1 (e.g. 0.75)".to_string()
        ),
    }
}

#[test]
fn parses_to_parts_per_million() {
    assert_eq!(parse_threshold_ppm("0"), Some(0));
    assert_eq!(parse_threshold_ppm("1"), Some(1_000_000));
    assert_eq!(parse_threshold_ppm("1.000"), Some(1_000_000));
    assert_eq!(parse_threshold_ppm("0.75"), Some(750_000));
    assert_eq!(parse_threshold_ppm("0.7"), Some(700_000));
    assert_eq!(parse_threshold_ppm(".5"), Some(500_000));
    assert_eq!(parse_threshold_ppm("0.000001"), Some(1));
    // digits beyond the sixth are cut off
    assert_eq!(parse_threshold_ppm("0.1234567"), Some(123_456));
    assert_eq!(parse_threshold_ppm("0.9999999"), Some(999_999));
    assert_eq!(parse_threshold_ppm("1.5"), None);
    assert_eq!(parse_threshold_ppm("00.5"), Some(500_000));
    assert_eq!(parse_threshold_ppm("01"), Some(1_000_000));
}

#[test]
fn test_include_path() {
    assert!(include_path("test1.bib"));
    assert!(!include_path("test1.txt"));
    assert!(!include_path("[bib_unifier]test1.bib"));
}

#[test]
fn include_path_edge_cases() {
    // the suffix alone has no stem to stand on
    assert!(!include_path(".bib"));
    assert!(include_path("a.bib"));
    assert!(!include_path("bib"));
    assert!(!include_path(""));
    // a name that begins like the output mark but is not it
    assert!(include_path("[bib_unifie].bib"));
    assert!(include_path("caf\u{e9}.bib"));
}
