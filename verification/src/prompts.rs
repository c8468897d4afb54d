//! The chat requests the tool sends: extracting best practices for
//! a category, reviewing code against them, the single-prompt review,
//! and the aggregation request — and the reading of the practice lines
//! out of the model's answer.

use vstd::prelude::*;

use crate::models::{ChatCompletionRequest, ChatMessage, ResponseFormat};
use crate::text::{chars_to_string, first_line_end, push_str_chars, str_to_chars, strings_view};

verus! {

/// The five categories reviewed when no override is given, in their
/// fixed order.
pub open spec fn spec_default_categories() -> Seq<Seq<char>> {
    seq!["Parameters"@, "Variables"@, "Naming"@, "Resources"@, "Outputs"@]
}

/// The default category list.
pub fn default_categories() -> (r: Vec<String>)
    ensures
        strings_view(r@) == spec_default_categories(),
{
    let mut r: Vec<String> = Vec::new();
    r.push(String::from_str("Parameters"));
    r.push(String::from_str("Variables"));
    r.push(String::from_str("Naming"));
    r.push(String::from_str("Resources"));
    r.push(String::from_str("Outputs"));
    proof {
        assert(strings_view(r@) =~= spec_default_categories());
    }
    r
}

/// The categories of one run: the single override when one is given,
/// the default list otherwise.
pub fn categories_for(category: &Option<String>) -> (r: Vec<String>)
    ensures
        match category {
            Some(c) => strings_view(r@) == seq![c@],
            None => strings_view(r@) == spec_default_categories(),
        },
{
    match category {
        Some(c) => {
            let mut r: Vec<String> = Vec::new();
            r.push(c.clone());
            proof {
                assert(strings_view(r@) =~= seq![c@]);
            }
            r
        },
        None => default_categories(),
    }
}

/// A sequence of texts joined by a separator.
pub open spec fn spec_join(l: Seq<Seq<char>>, sep: Seq<char>) -> Seq<char>
    decreases l.len(),
{
    if l.len() == 0 {
        Seq::empty()
    } else if l.len() == 1 {
        l[0]
    } else {
        l[0] + sep + spec_join(l.drop_first(), sep)
    }
}

/// Appends the texts from index `i` on, joined by the separator.
fn push_join(items: &Vec<String>, i: usize, sep: &str, out: &mut Vec<char>)
    requires
        i <= items@.len(),
    ensures
        final(out)@ == old(out)@ + spec_join(strings_view(items@).skip(i as int), sep@),
    decreases items@.len() - i,
{
    let ghost l = strings_view(items@);
    if i < items.len() {
        push_str_chars(items[i].as_str(), out);
        proof {
            assert(l.skip(i as int)[0] == items@[i as int]@);
        }
        if i + 1 < items.len() {
            push_str_chars(sep, out);
            push_join(items, i + 1, sep, out);
            proof {
                assert(l.skip(i as int).drop_first() =~= l.skip(i + 1 as int));
                assert(l.skip(i as int).len() > 1);
                assert(final(out)@ =~= old(out)@ + spec_join(l.skip(i as int), sep@));
            }
        } else {
            proof {
                assert(l.skip(i as int).len() == 1);
                assert(final(out)@ =~= old(out)@ + spec_join(l.skip(i as int), sep@));
            }
        }
    } else {
        proof {
            assert(l.skip(i as int) =~= Seq::<Seq<char>>::empty());
            assert(final(out)@ =~= old(out)@ + spec_join(l.skip(i as int), sep@));
        }
    }
}

/// The texts joined by a separator.
pub fn join_strings(items: &Vec<String>, sep: &str) -> (r: String)
    ensures
        r@ == spec_join(strings_view(items@), sep@),
{
    let mut out: Vec<char> = Vec::new();
    push_join(items, 0, sep, &mut out);
    proof {
        assert(strings_view(items@).skip(0) =~= strings_view(items@));
    }
    chars_to_string(&out)
}

/// The user prompt that asks for the best-practice lines of a category.
pub open spec fn practices_prompt(markdown: Seq<char>, category: Seq<char>) -> Seq<char> {
    "Given this Bicep best practices doc:\n\n"@ + markdown
        + "\n\nExtract best practices specifically for the '"@ + category
        + "' category.\nReturn as a list, one item per line."@
}

/// The request that asks for the best-practice lines of a category:
/// a system role line, the prompt, a free-text answer, temperature 0.7.
pub fn build_practices_request(model: &str, markdown: &str, category: &str) -> (r:
    ChatCompletionRequest)
    ensures
        r.model@ == model@,
        r.temperature_tenths == 7,
        r.response_format.format_type@ == "text"@,
        r.messages@.len() == 2,
        r.messages@[0].role@ == "system"@,
        r.messages@[0].content@ == "You are an expert in Bicep IaC best practices."@,
        r.messages@[1].role@ == "user"@,
        r.messages@[1].content@ == practices_prompt(markdown@, category@),
{
    let mut content: Vec<char> = Vec::new();
    push_str_chars("Given this Bicep best practices doc:\n\n", &mut content);
    push_str_chars(markdown, &mut content);
    push_str_chars("\n\nExtract best practices specifically for the '", &mut content);
    push_str_chars(category, &mut content);
    push_str_chars("' category.\nReturn as a list, one item per line.", &mut content);
    let mut messages: Vec<ChatMessage> = Vec::new();
    messages.push(
        ChatMessage {
            role: String::from_str("system"),
            content: String::from_str("You are an expert in Bicep IaC best practices."),
        },
    );
    messages.push(
        ChatMessage { role: String::from_str("user"), content: chars_to_string(&content) },
    );
    ChatCompletionRequest {
        model: String::from_str(model),
        messages,
        temperature_tenths: 7,
        response_format: ResponseFormat { format_type: String::from_str("text") },
    }
}

/// The user prompt that asks for a free-text review of one category.
pub open spec fn review_prompt(
    code: Seq<char>,
    category: Seq<char>,
    practices: Seq<Seq<char>>,
    references: Seq<Seq<char>>,
) -> Seq<char> {
    "Review Bicep code for category '"@ + category
        + "'.\nSeverity scale:\n  5 = Critical\n  4 = Serious\n  3 = Important\n  2 = Minor\n  1 = Suggestion\n\nBest Practices:\n"@
        + spec_join(practices, "\n"@) + "\n\nReferences:\n"@ + spec_join(references, "\n---\n"@)
        + "\n\nCode:\n"@ + code + "\n\nFor each issue:\n - The issue\n - Severity\n - Impact"@
}

/// The request that asks for the free-text review of one category:
/// the review-expert system line, the prompt, a free-text answer,
/// temperature 0.3.
pub fn build_review_request(
    model: &str,
    code: &str,
    category: &str,
    practices: &Vec<String>,
    references: &Vec<String>,
) -> (r: ChatCompletionRequest)
    ensures
        r.model@ == model@,
        r.temperature_tenths == 3,
        r.response_format.format_type@ == "text"@,
        r.messages@.len() == 2,
        r.messages@[0].role@ == "system"@,
        r.messages@[0].content@
            == "You are a Bicep code review expert. For each issue, provide severity (1-5) and impact."@,
        r.messages@[1].role@ == "user"@,
        r.messages@[1].content@ == review_prompt(
            code@,
            category@,
            strings_view(practices@),
            strings_view(references@),
        ),
{
    let mut content: Vec<char> = Vec::new();
    push_str_chars("Review Bicep code for category '", &mut content);
    push_str_chars(category, &mut content);
    push_str_chars(
        "'.\nSeverity scale:\n  5 = Critical\n  4 = Serious\n  3 = Important\n  2 = Minor\n  1 = Suggestion\n\nBest Practices:\n",
        &mut content,
    );
    push_join(practices, 0, "\n", &mut content);
    push_str_chars("\n\nReferences:\n", &mut content);
    push_join(references, 0, "\n---\n", &mut content);
    push_str_chars("\n\nCode:\n", &mut content);
    push_str_chars(code, &mut content);
    push_str_chars("\n\nFor each issue:\n - The issue\n - Severity\n - Impact", &mut content);
    proof {
        assert(strings_view(practices@).skip(0) =~= strings_view(practices@));
        assert(strings_view(references@).skip(0) =~= strings_view(references@));
    }
    let mut messages: Vec<ChatMessage> = Vec::new();
    messages.push(
        ChatMessage {
            role: String::from_str("system"),
            content: String::from_str(
                "You are a Bicep code review expert. For each issue, provide severity (1-5) and impact.",
            ),
        },
    );
    messages.push(
        ChatMessage { role: String::from_str("user"), content: chars_to_string(&content) },
    );
    ChatCompletionRequest {
        model: String::from_str(model),
        messages,
        temperature_tenths: 3,
        response_format: ResponseFormat { format_type: String::from_str("text") },
    }
}

/// The user prompt of the single-prompt review.
pub open spec fn simple_prompt(code: Seq<char>, best_practices: Seq<char>) -> Seq<char> {
    "Review this Bicep code against these best practices.\nReturn findings in this exact JSON format:\n{\n  \"findings\": [\n    {\n\"category\": \"General\",\n\"finding\": \"...\",\n\"severity\": 1-5,\n\"impact\": \"...\"\n    }\n  ]\n}\n\nBest Practices:\n"@
        + best_practices + "\n\nCode to Review:\n"@ + code
        + "\n\nSeverity scale:\n5 = Critical security/reliability issues\n4 = Serious issues that should be fixed\n3 = Important improvements needed\n2 = Minor suggestions\n1 = Style/documentation suggestions"@
}

/// The request of the single-prompt review: one call that asks for the
/// findings JSON directly, temperature 0.3.
pub fn build_simple_request(model: &str, code: &str, best_practices: &str) -> (r:
    ChatCompletionRequest)
    ensures
        r.model@ == model@,
        r.temperature_tenths == 3,
        r.response_format.format_type@ == "json_object"@,
        r.messages@.len() == 2,
        r.messages@[0].role@ == "system"@,
        r.messages@[0].content@
            == "You are a Bicep code review expert. Review code against best practices and return findings in JSON format."@,
        r.messages@[1].role@ == "user"@,
        r.messages@[1].content@ == simple_prompt(code@, best_practices@),
{
    let mut content: Vec<char> = Vec::new();
    push_str_chars(
        "Review this Bicep code against these best practices.\nReturn findings in this exact JSON format:\n{\n  \"findings\": [\n    {\n\"category\": \"General\",\n\"finding\": \"...\",\n\"severity\": 1-5,\n\"impact\": \"...\"\n    }\n  ]\n}\n\nBest Practices:\n",
        &mut content,
    );
    push_str_chars(best_practices, &mut content);
    push_str_chars("\n\nCode to Review:\n", &mut content);
    push_str_chars(code, &mut content);
    push_str_chars(
        "\n\nSeverity scale:\n5 = Critical security/reliability issues\n4 = Serious issues that should be fixed\n3 = Important improvements needed\n2 = Minor suggestions\n1 = Style/documentation suggestions",
        &mut content,
    );
    let mut messages: Vec<ChatMessage> = Vec::new();
    messages.push(
        ChatMessage {
            role: String::from_str("system"),
            content: String::from_str(
                "You are a Bicep code review expert. Review code against best practices and return findings in JSON format.",
            ),
        },
    );
    messages.push(
        ChatMessage { role: String::from_str("user"), content: chars_to_string(&content) },
    );
    ChatCompletionRequest {
        model: String::from_str(model),
        messages,
        temperature_tenths: 3,
        response_format: ResponseFormat { format_type: String::from_str("json_object") },
    }
}

/// The user prompt of the aggregation request, over the joined reviews.
pub open spec fn final_report_prompt(reviews: Seq<Seq<char>>) -> Seq<char> {
    "Convert these review findings into structured JSON.\nRemove trivial suggestions.\nReturn exactly:\n{\n  \"findings\": [\n    {\n\"category\": \"...\",\n\"finding\": \"...\",\n\"severity\": 1-5,\n\"impact\": \"...\"\n    }\n  ]\n}\n\nreviews:\n"@
        + spec_join(reviews, "\n\n"@)
}

/// The aggregation request: one user message that demands the strict
/// findings JSON over all category reviews, temperature 0.3.
pub fn build_final_report_request(model: &str, review_texts: &Vec<String>) -> (r:
    ChatCompletionRequest)
    ensures
        r.model@ == model@,
        r.temperature_tenths == 3,
        r.response_format.format_type@ == "json_object"@,
        r.messages@.len() == 1,
        r.messages@[0].role@ == "user"@,
        r.messages@[0].content@ == final_report_prompt(strings_view(review_texts@)),
{
    let mut content: Vec<char> = Vec::new();
    push_str_chars(
        "Convert these review findings into structured JSON.\nRemove trivial suggestions.\nReturn exactly:\n{\n  \"findings\": [\n    {\n\"category\": \"...\",\n\"finding\": \"...\",\n\"severity\": 1-5,\n\"impact\": \"...\"\n    }\n  ]\n}\n\nreviews:\n",
        &mut content,
    );
    push_join(review_texts, 0, "\n\n", &mut content);
    proof {
        assert(strings_view(review_texts@).skip(0) =~= strings_view(review_texts@));
    }
    let mut messages: Vec<ChatMessage> = Vec::new();
    messages.push(
        ChatMessage { role: String::from_str("user"), content: chars_to_string(&content) },
    );
    ChatCompletionRequest {
        model: String::from_str(model),
        messages,
        temperature_tenths: 3,
        response_format: ResponseFormat { format_type: String::from_str("json_object") },
    }
}

/// A category review labelled with its category, as the analyzer hands
/// it on to the aggregation step.
pub fn label_category_review(category: &str, content: &str) -> (r: String)
    ensures
        r@ == "Category: "@ + category@ + "\n"@ + content@,
{
    let mut out: Vec<char> = Vec::new();
    push_str_chars("Category: ", &mut out);
    push_str_chars(category, &mut out);
    push_str_chars("\n", &mut out);
    push_str_chars(content, &mut out);
    proof {
        assert(out@ =~= "Category: "@ + category@ + "\n"@ + content@);
    }
    chars_to_string(&out)
}

// ------------------------------------------------------------------
// Reading the practice lines out of the model's answer

/// Whether a character counts as blank when a line is trimmed.
pub open spec fn is_blank(c: char) -> bool {
    c == ' ' || c == '\t' || c == '\r' || c == '\n'
}

/// A text without its leading blanks.
pub open spec fn spec_trim_front(s: Seq<char>) -> Seq<char>
    decreases s.len(),
{
    if s.len() > 0 && is_blank(s[0]) {
        spec_trim_front(s.drop_first())
    } else {
        s
    }
}

/// A text without its trailing blanks.
pub open spec fn spec_trim_back(s: Seq<char>) -> Seq<char>
    decreases s.len(),
{
    if s.len() > 0 && is_blank(s.last()) {
        spec_trim_back(s.drop_last())
    } else {
        s
    }
}

/// A text without blanks at either end.
pub open spec fn spec_trim(s: Seq<char>) -> Seq<char> {
    spec_trim_back(spec_trim_front(s))
}

/// One trimmed line, kept only when something is left of it.
pub open spec fn spec_kept_line(line: Seq<char>) -> Seq<Seq<char>> {
    let t = spec_trim(line);
    if t.len() == 0 {
        Seq::empty()
    } else {
        seq![t]
    }
}

/// The non-empty trimmed lines of a text, in order.
pub open spec fn spec_practice_lines(s: Seq<char>) -> Seq<Seq<char>>
    decreases s.len(),
{
    if s.len() == 0 {
        Seq::empty()
    } else {
        let e = first_line_end(s);
        if 0 <= e < s.len() {
            spec_kept_line(s.take(e)) + spec_practice_lines(s.skip(e + 1))
        } else {
            spec_kept_line(s)
        }
    }
}

/// Whether a character counts as blank.
fn is_blank_char(c: char) -> (b: bool)
    ensures
        b == is_blank(c),
{
    c == ' ' || c == '\t' || c == '\r' || c == '\n'
}

/// The end of the line that starts at `i`.
fn line_end(v: &Vec<char>, i: usize) -> (j: usize)
    requires
        i <= v@.len(),
    ensures
        i <= j <= v@.len(),
        first_line_end(v@.skip(i as int)) == j - i,
        j < v@.len() ==> v@[j as int] == '\n',
    decreases v@.len() - i,
{
    let mut j: usize = i;
    let n = v.len();
    while j < n && v[j] != '\n'
        invariant
            i <= j <= n,
            n == v@.len(),
            first_line_end(v@.skip(i as int)) == (j - i) + first_line_end(v@.skip(j as int)),
        decreases n - j,
    {
        proof {
            assert(v@.skip(j as int)[0] == v@[j as int]);
            assert(v@.skip(j as int).drop_first() =~= v@.skip(j as int + 1));
        }
        j = j + 1;
    }
    proof {
        if j < n {
            assert(v@.skip(j as int)[0] == v@[j as int]);
        }
        assert(first_line_end(v@.skip(j as int)) == 0);
    }
    j
}

/// The trimmed copy of one line.
fn trim_chars(line: &Vec<char>) -> (r: Vec<char>)
    ensures
        r@ == spec_trim(line@),
{
    let n = line.len();
    let mut a: usize = 0;
    proof {
        assert(line@.skip(0) =~= line@);
    }
    while a < n && is_blank_char(line[a])
        invariant
            a <= n,
            n == line@.len(),
            spec_trim_front(line@) == spec_trim_front(line@.skip(a as int)),
        decreases n - a,
    {
        proof {
            assert(line@.skip(a as int)[0] == line@[a as int]);
            assert(line@.skip(a as int).drop_first() =~= line@.skip(a as int + 1));
        }
        a = a + 1;
    }
    proof {
        if a < n {
            assert(line@.skip(a as int)[0] == line@[a as int]);
        }
        assert(spec_trim_front(line@) == line@.skip(a as int));
    }
    let ghost front = line@.skip(a as int);
    let mut b: usize = n;
    proof {
        assert(front.take(n - a) =~= front);
    }
    while b > a && is_blank_char(line[b - 1])
        invariant
            a <= b <= n,
            n == line@.len(),
            front == line@.skip(a as int),
            spec_trim_back(front) == spec_trim_back(front.take(b - a)),
        decreases b,
    {
        proof {
            assert(front.take(b - a).last() == line@[b as int - 1]);
            assert(front.take(b - a).drop_last() =~= front.take(b - 1 - a));
        }
        b = b - 1;
    }
    proof {
        if b > a {
            assert(front.take(b - a).last() == line@[b as int - 1]);
        }
        assert(spec_trim_back(front.take(b - a)) == front.take(b - a));
    }
    let mut r: Vec<char> = Vec::new();
    let mut k: usize = a;
    while k < b
        invariant
            a <= k <= b <= n,
            n == line@.len(),
            r@ == line@.subrange(a as int, k as int),
        decreases b - k,
    {
        r.push(line[k]);
        proof {
            assert(r@ =~= line@.subrange(a as int, k + 1 as int));
        }
        k = k + 1;
    }
    proof {
        assert(r@ =~= front.take(b - a));
    }
    r
}

/// The non-empty trimmed lines from index `i` on.
fn extract_lines_from(v: &Vec<char>, i: usize) -> (r: Vec<String>)
    requires
        i <= v@.len(),
    ensures
        strings_view(r@) == spec_practice_lines(v@.skip(i as int)),
    decreases v@.len() - i,
{
    let ghost s = v@.skip(i as int);
    let mut out: Vec<String> = Vec::new();
    if i >= v.len() {
        proof {
            assert(strings_view(out@) =~= spec_practice_lines(s));
        }
        return out;
    }
    let e = line_end(v, i);
    let mut line: Vec<char> = Vec::new();
    let mut k: usize = i;
    while k < e
        invariant
            i <= k <= e <= v@.len(),
            line@ == v@.subrange(i as int, k as int),
        decreases e - k,
    {
        line.push(v[k]);
        proof {
            assert(line@ =~= v@.subrange(i as int, k + 1 as int));
        }
        k = k + 1;
    }
    let t = trim_chars(&line);
    if t.len() > 0 {
        out.push(chars_to_string(&t));
    }
    if e < v.len() {
        proof {
            assert(s.take(e - i) =~= line@);
            assert(s.skip(e - i + 1) =~= v@.skip(e as int + 1));
        }
        let mut rest = extract_lines_from(v, e + 1);
        let ghost out_before = out@;
        out.append(&mut rest);
        proof {
            assert(strings_view(out@) =~= strings_view(out_before) + spec_practice_lines(
                v@.skip(e as int + 1),
            ));
            assert(strings_view(out@) =~= spec_practice_lines(s));
        }
    } else {
        proof {
            assert(s.take(e - i) =~= line@);
            assert(first_line_end(s) == s.len());
            assert(s =~= line@);
            assert(strings_view(out@) =~= spec_practice_lines(s));
        }
    }
    out
}

/// The practice lines of the model's answer: its non-empty trimmed
/// lines, in order.
pub fn extract_practice_lines(text: &str) -> (r: Vec<String>)
    ensures
        strings_view(r@) == spec_practice_lines(text@),
{
    let v = str_to_chars(text);
    proof {
        assert(v@.skip(0) =~= v@);
    }
    extract_lines_from(&v, 0)
}

} // verus!
