use bicep_review::models::{FinalReport, ReviewError, ValidationResult};
use bicep_review::report_json::{parse_final_report, serialize_report};

fn finding(category: &str, text: &str, severity: u8, impact: &str) -> ValidationResult {
    ValidationResult {
        category: category.to_string(),
        finding: text.to_string(),
        severity,
        impact: impact.to_string(),
    }
}

#[test]
fn serialize_one_finding_is_the_canonical_shape() {
    let findings = vec![finding("A", "B", 3, "C")];
    let s = serialize_report(&findings);
    assert_eq!(
        s,
        "{\"findings\":[{\"category\":\"A\",\"finding\":\"B\",\"severity\":3,\"impact\":\"C\"}]}"
    );
}

#[test]
fn serialize_escapes_quotes_backslashes_and_controls() {
    let findings = vec![finding("a\"b", "c\\d", 250, "e\nf\u{1}g")];
    let s = serialize_report(&findings);
    assert_eq!(
        s,
        "{\"findings\":[{\"category\":\"a\\\"b\",\"finding\":\"c\\\\d\",\"severity\":250,\"impact\":\"e\\u000af\\u0001g\"}]}"
    );
}

#[test]
fn round_trip_keeps_every_field() {
    let findings = vec![
        finding("Parameters", "Missing \"validation\"", 3, "Deployment risk"),
        finding("Naming\\Style", "Bad name\nsecond line", 5, "Ops \u{1F600} confusion"),
        finding("", "", 0, "\ttabbed\t"),
    ];
    let s = serialize_report(&findings);
    let parsed = parse_final_report(&s).expect("the written shape parses");
    assert_eq!(parsed.findings, findings);
}

#[test]
fn round_trip_of_an_empty_report() {
    let findings: Vec<ValidationResult> = Vec::new();
    let s = serialize_report(&findings);
    assert_eq!(s, "{\"findings\":[]}");
    let parsed = parse_final_report(&s).expect("the empty shape parses");
    assert_eq!(parsed.findings.len(), 0);
}

#[test]
fn parse_accepts_whitespace_reordering_and_unknown_members() {
    let text = " {\n  \"version\": [1, {\"x\": null}, -2.5e3, true, false],\n  \"findings\": [\n    {\n      \"impact\": \"I\",\n      \"severity\": 4,\n      \"extra\": \"dropped\",\n      \"finding\": \"F\",\n      \"category\": \"C\"\n    }\n  ],\n  \"note\": \"n\"\n} ";
    let parsed = parse_final_report(text).expect("reordered members parse");
    assert_eq!(parsed.findings.len(), 1);
    assert_eq!(parsed.findings[0].category, "C");
    assert_eq!(parsed.findings[0].finding, "F");
    assert_eq!(parsed.findings[0].severity, 4);
    assert_eq!(parsed.findings[0].impact, "I");
}

#[test]
fn parse_decodes_string_escapes() {
    let text = "{\"findings\":[{\"category\":\"\\u0041\\u00e9\",\"finding\":\"\\uD83D\\uDE00\",\"severity\":2,\"impact\":\"q\\\"b\\\\s\\/n\\nr\\rt\\tb\\bf\\f\"}]}";
    let parsed = parse_final_report(text).expect("escapes parse");
    assert_eq!(parsed.findings[0].category, "A\u{e9}");
    assert_eq!(parsed.findings[0].finding, "\u{1F600}");
    assert_eq!(
        parsed.findings[0].impact,
        "q\"b\\s/n\nr\rt\tb\u{8}f\u{c}"
    );
}

#[test]
fn severity_given_as_text_is_kept_as_zero() {
    let text = "{\"findings\":[{\"category\":\"C\",\"finding\":\"F\",\"severity\":\"high\",\"impact\":\"I\"}]}";
    let parsed = parse_final_report(text).expect("a text severity parses");
    assert_eq!(parsed.findings[0].severity, 0);
}

#[test]
fn malformed_severities_fail() {
    for sev in ["3.5", "-1", "300", "007", "null", "true", "1e2"] {
        let text = format!(
            "{{\"findings\":[{{\"category\":\"C\",\"finding\":\"F\",\"severity\":{},\"impact\":\"I\"}}]}}",
            sev
        );
        assert!(
            matches!(
                parse_final_report(&text),
                Err(ReviewError::MalformedReportError { .. })
            ),
            "severity {} should be refused",
            sev
        );
    }
}

#[test]
fn non_json_text_is_a_malformed_report() {
    let r = parse_final_report("The model is sorry and cannot answer in JSON.");
    assert!(matches!(r, Err(ReviewError::MalformedReportError { .. })));
}

#[test]
fn missing_pieces_are_malformed_reports() {
    // No findings member at all.
    assert!(parse_final_report("{\"other\": 1}").is_err());
    // A finding without its impact.
    assert!(
        parse_final_report("{\"findings\":[{\"category\":\"C\",\"finding\":\"F\",\"severity\":3}]}")
            .is_err()
    );
    // Text after the object.
    assert!(parse_final_report("{\"findings\":[]} trailing").is_err());
    // A duplicate member.
    assert!(parse_final_report("{\"findings\":[],\"findings\":[]}").is_err());
    // An unterminated string.
    assert!(parse_final_report("{\"findings\":[{\"category\":\"C").is_err());
    // A bare array instead of the object.
    assert!(parse_final_report("[]").is_err());
    // Nothing at all.
    assert!(parse_final_report("").is_err());
    // A raw control character inside a string.
    assert!(parse_final_report("{\"findings\":[],\"x\":\"a\u{1}b\"}").is_err());
    // A lone low surrogate escape.
    assert!(parse_final_report("{\"findings\":[],\"x\":\"\\uDC00\"}").is_err());
}

#[test]
fn parse_agrees_with_a_reference_json_reader() {
    let findings = vec![finding("C\u{e9}", "line1\nline2", 5, "imp \"q\"")];
    let s = serialize_report(&findings);
    let v: serde_json::Value = serde_json::from_str(&s).expect("the written shape is valid JSON");
    assert_eq!(v["findings"][0]["category"], "C\u{e9}");
    assert_eq!(v["findings"][0]["finding"], "line1\nline2");
    assert_eq!(v["findings"][0]["severity"], 5);
    assert_eq!(v["findings"][0]["impact"], "imp \"q\"");
}

#[test]
fn parse_keeps_model_order() {
    let report = FinalReport {
        findings: vec![
            finding("B", "b", 2, "x"),
            finding("A", "a", 5, "y"),
            finding("C", "c", 2, "z"),
        ],
    };
    let s = serialize_report(&report.findings);
    let parsed = parse_final_report(&s).unwrap();
    let cats: Vec<&str> = parsed.findings.iter().map(|f| f.category.as_str()).collect();
    assert_eq!(cats, vec!["B", "A", "C"]);
}
