use bicep_review::models::{FinalReport, ValidationResult};
use bicep_review::render::{build_markdown, format_pr_comment};
use bicep_review::severity::filter_by_severity;

fn finding(category: &str, text: &str, severity: u8, impact: &str) -> ValidationResult {
    ValidationResult {
        category: category.to_string(),
        finding: text.to_string(),
        severity,
        impact: impact.to_string(),
    }
}

#[test]
fn empty_report_prints_the_no_issues_line_and_no_table() {
    let report = build_markdown(&Vec::new(), 3);
    assert_eq!(
        report,
        "# Bicep Code Review Results\n\nNo issues found with severity 3 or higher.\n"
    );
    assert!(!report.contains("```"));
    assert!(!report.contains("CRITICAL"));
}

#[test]
fn report_counts_and_frames_the_table() {
    let findings = vec![
        finding("Parameters", "Missing param validation", 3, "Deployment risk"),
        finding("Naming", "Bad resource name", 5, "Ops confusion"),
    ];
    let sorted = filter_by_severity(
        &FinalReport { findings },
        3,
    );
    let report = build_markdown(&sorted, 3);
    assert!(report.starts_with("# Bicep Code Review Results\n\n"));
    assert!(report.contains("Found 2 issues with severity 3 or higher.\n\n"));
    assert!(report.contains("```\n"));
    assert!(report.contains("Category"));
    assert!(report.contains("Missing param validation"));
    assert!(report.contains("Bad resource name"));
    // Every table line sits four spaces deep inside the code block.
    let inner = report
        .split("```")
        .nth(1)
        .expect("the report holds a code block");
    for line in inner.lines().filter(|l| !l.is_empty()) {
        assert!(line.starts_with("    "), "not indented: {:?}", line);
    }
    // The box drawing of the table is present.
    assert!(inner.contains("+--"));
    assert!(inner.contains("|"));
}

#[test]
fn scenario_critical_finding_orders_first_and_raises_the_banner() {
    let findings = vec![
        finding("Parameters", "Missing param validation", 3, "Deployment risk"),
        finding("Naming", "Bad resource name", 5, "Ops confusion"),
    ];
    let sorted = filter_by_severity(&FinalReport { findings }, 3);
    assert_eq!(sorted[0].finding, "Bad resource name");
    assert_eq!(sorted[1].finding, "Missing param validation");
    let report = build_markdown(&sorted, 3);
    let first = report.find("Bad resource name").unwrap();
    let second = report.find("Missing param validation").unwrap();
    assert!(first < second);
    assert!(report.contains("\n\u{26a0}\u{fe0f} **CRITICAL ISSUES FOUND**\n"));
    // The process exits non-zero exactly on this marker.
    assert!(report.contains("5 (Critical)"));
}

#[test]
fn report_without_critical_findings_has_no_banner() {
    let findings = vec![finding("Outputs", "No description", 3, "Low")];
    let report = build_markdown(&findings, 3);
    assert!(!report.contains("CRITICAL ISSUES FOUND"));
    assert!(!report.contains("5 (Critical)"));
}

#[test]
fn long_texts_are_wrapped_in_the_table() {
    let long = "a finding whose text runs well past the sixty column wrap so it must break into more than one line";
    let findings = vec![finding("Parameters", long, 4, "short")];
    let report = build_markdown(&findings, 3);
    let wrapped = textwrap::fill(long, 60);
    assert!(wrapped.contains('\n'));
    let first_line = wrapped.lines().next().unwrap();
    assert!(report.contains(first_line));
    // The unwrapped text never appears whole: the wrap really happened.
    assert!(!report.contains(long));
}

#[test]
fn a_cell_keeps_its_lines_and_drops_a_final_line_ending() {
    let findings = vec![finding("line one\nline two", "F", 4, "I")];
    let report = build_markdown(&findings, 3);
    // The two lines of the category land on two table lines.
    let inner = report.split("```").nth(1).unwrap();
    assert!(inner
        .lines()
        .any(|l| l.contains("line one") && !l.contains("line two")));
    assert!(inner.lines().any(|l| l.contains("line two")));
    // A text with a final line ending makes the same cell as one
    // without it, so the whole report is the same.
    let with_ending = build_markdown(&vec![finding("tail\n", "G", 3, "J")], 3);
    let without = build_markdown(&vec![finding("tail", "G", 3, "J")], 3);
    assert_eq!(with_ending, without);
}

#[test]
fn pr_comment_lists_each_finding_with_its_emoji() {
    let findings = vec![
        finding("Naming", "Bad name", 5, "Confusion"),
        finding("Outputs", "Missing output", 3, "Friction"),
    ];
    let comment = format_pr_comment("infra/main.bicep", &findings);
    assert_eq!(
        comment,
        "## Bicep Review Results for `infra/main.bicep`\n\n\
         ### \u{1f6a8} Severity 5: Bad name\n**Impact:** Confusion\n\n\
         ### \u{26a1} Severity 3: Missing output\n**Impact:** Friction\n\n"
    );
}

#[test]
fn pr_comment_of_no_findings_is_just_the_heading() {
    let comment = format_pr_comment("main.bicep", &Vec::new());
    assert_eq!(comment, "## Bicep Review Results for `main.bicep`\n\n");
}
