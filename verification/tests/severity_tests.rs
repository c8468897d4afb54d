use bicep_review::models::{Args, FinalReport, ReviewError, ValidationResult};
use bicep_review::severity::{
    check_local_args, check_min_severity, filter_by_severity, has_critical, severity_emoji,
    severity_label,
};

fn finding(category: &str, text: &str, severity: u8, impact: &str) -> ValidationResult {
    ValidationResult {
        category: category.to_string(),
        finding: text.to_string(),
        severity,
        impact: impact.to_string(),
    }
}

#[test]
fn minimum_severity_outside_range_is_rejected() {
    assert!(matches!(
        check_min_severity(0),
        Err(ReviewError::ConfigurationError { .. })
    ));
    assert!(matches!(
        check_min_severity(6),
        Err(ReviewError::ConfigurationError { .. })
    ));
    assert!(matches!(
        check_min_severity(255),
        Err(ReviewError::ConfigurationError { .. })
    ));
    for m in 1..=5u8 {
        assert!(check_min_severity(m).is_ok());
    }
}

#[test]
fn local_args_check_follows_minimum_severity() {
    let mut args = Args {
        bicep_file: "main.bicep".to_string(),
        best_practices_file: "bp.md".to_string(),
        category: None,
        debug: false,
        minimum_severity: 0,
        simple: false,
    };
    assert!(check_local_args(&args).is_err());
    args.minimum_severity = 3;
    assert!(check_local_args(&args).is_ok());
    args.minimum_severity = 6;
    assert!(check_local_args(&args).is_err());
}

#[test]
fn filter_drops_low_severities_and_sorts_descending() {
    let report = FinalReport {
        findings: vec![
            finding("A", "a", 2, "ia"),
            finding("B", "b", 5, "ib"),
            finding("C", "c", 3, "ic"),
            finding("D", "d", 4, "id"),
            finding("E", "e", 1, "ie"),
        ],
    };
    let out = filter_by_severity(&report, 3);
    let sevs: Vec<u8> = out.iter().map(|f| f.severity).collect();
    assert_eq!(sevs, vec![5, 4, 3]);
    let cats: Vec<&str> = out.iter().map(|f| f.category.as_str()).collect();
    assert_eq!(cats, vec!["B", "D", "C"]);
}

#[test]
fn filter_keeps_tie_order_stable() {
    let report = FinalReport {
        findings: vec![
            finding("first3", "a", 3, "x"),
            finding("five", "b", 5, "x"),
            finding("second3", "c", 3, "x"),
            finding("third3", "d", 3, "x"),
        ],
    };
    let out = filter_by_severity(&report, 1);
    let cats: Vec<&str> = out.iter().map(|f| f.category.as_str()).collect();
    assert_eq!(cats, vec!["five", "first3", "second3", "third3"]);
}

#[test]
fn filter_then_sort_twice_equals_once() {
    let report = FinalReport {
        findings: vec![
            finding("A", "a", 4, "x"),
            finding("B", "b", 2, "x"),
            finding("C", "c", 5, "x"),
            finding("D", "d", 4, "x"),
        ],
    };
    let once = filter_by_severity(&report, 3);
    let again = filter_by_severity(
        &FinalReport {
            findings: once.clone(),
        },
        3,
    );
    assert_eq!(once, again);
}

#[test]
fn coerced_zero_severity_is_filtered_by_any_positive_minimum() {
    let report = FinalReport {
        findings: vec![finding("A", "a", 0, "x"), finding("B", "b", 1, "x")],
    };
    let out = filter_by_severity(&report, 1);
    assert_eq!(out.len(), 1);
    assert_eq!(out[0].category, "B");
}

#[test]
fn severity_labels_are_total_and_exhaustive() {
    assert_eq!(severity_label(5), "5 (Critical) \u{26a0}\u{fe0f}");
    assert_eq!(severity_label(4), "4 (Serious)");
    assert_eq!(severity_label(3), "3 (Important)");
    assert_eq!(severity_label(2), "2 (Minor)");
    assert_eq!(severity_label(1), "1 (Suggestion)");
    assert_eq!(severity_label(0), "1 (Suggestion)");
    assert_eq!(severity_label(6), "1 (Suggestion)");
    assert_eq!(severity_label(255), "1 (Suggestion)");
}

#[test]
fn severity_emojis_are_total_and_exhaustive() {
    assert_eq!(severity_emoji(5), "\u{1f6a8}");
    assert_eq!(severity_emoji(4), "\u{26a0}\u{fe0f}");
    assert_eq!(severity_emoji(3), "\u{26a1}");
    assert_eq!(severity_emoji(2), "\u{2139}\u{fe0f}");
    assert_eq!(severity_emoji(1), "\u{1f4a1}");
    assert_eq!(severity_emoji(0), "\u{1f4a1}");
    assert_eq!(severity_emoji(77), "\u{1f4a1}");
}

#[test]
fn critical_detection() {
    let none = vec![finding("A", "a", 4, "x")];
    let some = vec![finding("A", "a", 4, "x"), finding("B", "b", 5, "x")];
    assert!(!has_critical(&none));
    assert!(has_critical(&some));
    assert!(!has_critical(&Vec::new()));
}

#[test]
fn error_descriptions_name_their_kind() {
    let e = ReviewError::RemoteServiceError {
        status: 404,
        body: "missing".to_string(),
    };
    assert_eq!(e.describe(), "remote service error: missing");
    let c = ReviewError::ConfigurationError {
        message: "bad".to_string(),
    };
    assert_eq!(c.describe(), "configuration error: bad");
    let t = ReviewError::TransportError {
        message: "down".to_string(),
    };
    assert_eq!(t.describe(), "transport error: down");
    let f = ReviewError::FileIOError {
        message: "gone".to_string(),
    };
    assert_eq!(f.describe(), "file error: gone");
}
