use bicep_review::prompts::{
    build_final_report_request, build_practices_request, build_review_request,
    build_simple_request, categories_for, default_categories, extract_practice_lines,
    join_strings, label_category_review,
};

#[test]
fn default_categories_are_fixed_and_ordered() {
    let cats = default_categories();
    assert_eq!(
        cats,
        vec!["Parameters", "Variables", "Naming", "Resources", "Outputs"]
    );
}

#[test]
fn a_category_override_replaces_the_whole_list() {
    let cats = categories_for(&Some("Naming".to_string()));
    assert_eq!(cats, vec!["Naming"]);
    let cats = categories_for(&None);
    assert_eq!(cats.len(), 5);
}

#[test]
fn join_strings_places_the_separator_between_items() {
    let items = vec!["a".to_string(), "b".to_string(), "c".to_string()];
    assert_eq!(join_strings(&items, "\n---\n"), "a\n---\nb\n---\nc");
    assert_eq!(join_strings(&vec!["only".to_string()], ", "), "only");
    assert_eq!(join_strings(&Vec::new(), ", "), "");
}

#[test]
fn practices_request_embeds_document_and_category() {
    let r = build_practices_request("gpt-dep", "DOC BODY", "Naming");
    assert_eq!(r.model, "gpt-dep");
    assert_eq!(r.temperature_tenths, 7);
    assert_eq!(r.response_format.format_type, "text");
    assert_eq!(r.messages.len(), 2);
    assert_eq!(r.messages[0].role, "system");
    assert_eq!(
        r.messages[0].content,
        "You are an expert in Bicep IaC best practices."
    );
    assert_eq!(r.messages[1].role, "user");
    assert_eq!(
        r.messages[1].content,
        "Given this Bicep best practices doc:\n\nDOC BODY\n\nExtract best practices specifically for the 'Naming' category.\nReturn as a list, one item per line."
    );
}

#[test]
fn review_request_embeds_rubric_practices_references_and_code() {
    let practices = vec!["use camelCase".to_string(), "no abbreviations".to_string()];
    let references = vec!["ref one".to_string(), "ref two".to_string()];
    let r = build_review_request("dep", "param x int", "Naming", &practices, &references);
    assert_eq!(r.temperature_tenths, 3);
    assert_eq!(r.response_format.format_type, "text");
    assert_eq!(
        r.messages[0].content,
        "You are a Bicep code review expert. For each issue, provide severity (1-5) and impact."
    );
    assert_eq!(
        r.messages[1].content,
        "Review Bicep code for category 'Naming'.\nSeverity scale:\n  5 = Critical\n  4 = Serious\n  3 = Important\n  2 = Minor\n  1 = Suggestion\n\nBest Practices:\nuse camelCase\nno abbreviations\n\nReferences:\nref one\n---\nref two\n\nCode:\nparam x int\n\nFor each issue:\n - The issue\n - Severity\n - Impact"
    );
}

#[test]
fn simple_request_asks_for_the_json_shape_directly() {
    let r = build_simple_request("dep", "CODE", "PRACTICES");
    assert_eq!(r.temperature_tenths, 3);
    assert_eq!(r.response_format.format_type, "json_object");
    assert_eq!(r.messages.len(), 2);
    assert_eq!(
        r.messages[0].content,
        "You are a Bicep code review expert. Review code against best practices and return findings in JSON format."
    );
    let user = &r.messages[1].content;
    assert!(user.starts_with(
        "Review this Bicep code against these best practices.\nReturn findings in this exact JSON format:\n{\n  \"findings\": [\n    {\n\"category\": \"General\",\n\"finding\": \"...\",\n\"severity\": 1-5,\n\"impact\": \"...\"\n    }\n  ]\n}\n\nBest Practices:\nPRACTICES\n\nCode to Review:\nCODE"
    ));
    assert!(user.ends_with(
        "Severity scale:\n5 = Critical security/reliability issues\n4 = Serious issues that should be fixed\n3 = Important improvements needed\n2 = Minor suggestions\n1 = Style/documentation suggestions"
    ));
}

#[test]
fn final_report_request_joins_the_reviews() {
    let reviews = vec!["Category: A\nfine".to_string(), "Category: B\nworse".to_string()];
    let r = build_final_report_request("dep", &reviews);
    assert_eq!(r.model, "dep");
    assert_eq!(r.temperature_tenths, 3);
    assert_eq!(r.response_format.format_type, "json_object");
    assert_eq!(r.messages.len(), 1);
    assert_eq!(r.messages[0].role, "user");
    assert!(r.messages[0].content.starts_with(
        "Convert these review findings into structured JSON.\nRemove trivial suggestions.\nReturn exactly:\n"
    ));
    assert!(r.messages[0]
        .content
        .ends_with("reviews:\nCategory: A\nfine\n\nCategory: B\nworse"));
}

#[test]
fn category_reviews_carry_their_label() {
    assert_eq!(
        label_category_review("Naming", "free text"),
        "Category: Naming\nfree text"
    );
}

#[test]
fn practice_lines_are_trimmed_and_non_empty() {
    let text = "  use camelCase \n\n\t- no abbreviations\r\n   \nlast";
    let lines = extract_practice_lines(text);
    assert_eq!(lines, vec!["use camelCase", "- no abbreviations", "last"]);
}

#[test]
fn practice_lines_of_blank_text_are_none() {
    assert_eq!(extract_practice_lines("").len(), 0);
    assert_eq!(extract_practice_lines("  \n \t \n").len(), 0);
}
