//! The two renderings of a filtered, ordered finding list: the boxed
//! console report and the pull-request comment.

use vstd::prelude::*;

use crate::models::{FindingView, ValidationResult};
use crate::severity::{
    findings_view, has_critical, severity_emoji, severity_label, spec_severity_emoji,
    spec_severity_label,
};
use crate::text::{chars_to_string, first_line_end, push_dec, push_str_chars, spec_dec, str_to_chars};

verus! {

/// The column width at which finding and impact texts are wrapped.
pub const TABLE_WRAP_WIDTH: usize = 60;

// ------------------------------------------------------------------
// The outside work: the table layout and the line wrapping

/// What a cell keeps of the text handed to it: the text's lines, split
/// the way `str::lines` splits them — a line ends at `\n`, a `\r`
/// directly before the `\n` belongs to the break, and a final line
/// ending is dropped.  A cell does not retain the raw text itself, so
/// two texts with the same lines make the same cell.
pub open spec fn cell_lines(s: Seq<char>) -> Seq<Seq<char>>
    decreases s.len(),
{
    if s.len() == 0 {
        Seq::empty()
    } else {
        let e = first_line_end(s);
        if 0 <= e < s.len() {
            let raw = s.take(e);
            let line = if raw.len() > 0 && raw.last() == '\r' {
                raw.drop_last()
            } else {
                raw
            };
            seq![line] + cell_lines(s.skip(e + 1))
        } else {
            seq![s]
        }
    }
}

/// What a table holds: its rows, each a list of cells, each cell the
/// lines of its text; the header row first.
pub uninterp spec fn table_rows(t: prettytable::Table) -> Seq<Seq<Seq<Seq<char>>>>;

/// Whether a table still carries the layout `Table::new` gave it.
pub uninterp spec fn table_default_format(t: prettytable::Table) -> bool;

/// What a table prints as, given its rows.  With the default layout the
/// plain rendering depends on the cells' lines alone.
pub uninterp spec fn rendered_table(rows: Seq<Seq<Seq<Seq<char>>>>) -> Seq<char>;

/// What `textwrap::fill` makes of a text at a width.  It depends on the
/// text and the width alone.
pub uninterp spec fn filled(text: Seq<char>, width: int) -> Seq<char>;

#[verifier::external_type_specification]
#[verifier::external_body]
pub struct ExTable(prettytable::Table);

/// Relies on `prettytable::Table::new`: a table with no rows, in the
/// default layout.
#[verifier::external_body]
fn new_table() -> (t: prettytable::Table)
    ensures
        table_rows(t) == Seq::<Seq<Seq<Seq<char>>>>::empty(),
        table_default_format(t),
{
    prettytable::Table::new()
}

/// Relies on `prettytable::Table::add_row` and `prettytable::Cell::new`:
/// appends one row of four cells, each cell keeping its text's lines
/// (`Cell::new` splits the text with `str::lines`), changing nothing
/// else.
#[verifier::external_body]
fn table_add_row(t: &mut prettytable::Table, c0: &str, c1: &str, c2: &str, c3: &str)
    ensures
        table_rows(*final(t)) == table_rows(*old(t)).push(
            seq![cell_lines(c0@), cell_lines(c1@), cell_lines(c2@), cell_lines(c3@)],
        ),
        table_default_format(*final(t)) == table_default_format(*old(t)),
{
    t.add_row(
        prettytable::Row::new(
            vec![
                prettytable::Cell::new(c0),
                prettytable::Cell::new(c1),
                prettytable::Cell::new(c2),
                prettytable::Cell::new(c3),
            ],
        ),
    );
}

/// Relies on the same calls, with `Cell::style_spec("b")` on each cell:
/// the bold attribute colors a terminal print only and leaves the plain
/// rendering to the cells' lines, so the row is modelled like any other.
#[verifier::external_body]
fn table_add_header_row(t: &mut prettytable::Table, c0: &str, c1: &str, c2: &str, c3: &str)
    ensures
        table_rows(*final(t)) == table_rows(*old(t)).push(
            seq![cell_lines(c0@), cell_lines(c1@), cell_lines(c2@), cell_lines(c3@)],
        ),
        table_default_format(*final(t)) == table_default_format(*old(t)),
{
    t.add_row(
        prettytable::Row::new(
            vec![
                prettytable::Cell::new(c0).style_spec("b"),
                prettytable::Cell::new(c1).style_spec("b"),
                prettytable::Cell::new(c2).style_spec("b"),
                prettytable::Cell::new(c3).style_spec("b"),
            ],
        ),
    );
}

/// Relies on `prettytable`'s plain rendering (its `Display`): with the
/// default layout the text is determined by the rows' cell texts;
/// terminal styles are not applied there.
#[verifier::external_body]
fn render_table(t: &prettytable::Table) -> (r: String)
    requires
        table_default_format(*t),
    ensures
        r@ == rendered_table(table_rows(*t)),
{
    t.to_string()
}

/// Relies on `textwrap::fill`: wraps a text to the width, a pure
/// function of its two arguments.
#[verifier::external_body]
fn fill_text(text: &str, width: usize) -> (r: String)
    ensures
        r@ == filled(text@, width as int),
{
    textwrap::fill(text, width)
}

// ------------------------------------------------------------------
// Indenting the rendered table into the code block

/// The body of the indented table text: each line break starts a new
/// indented line; a carriage return before a line break belongs to the
/// break.
pub open spec fn spec_indent_body(s: Seq<char>) -> Seq<char>
    decreases s.len(),
{
    if s.len() == 0 {
        Seq::empty()
    } else if s.len() >= 2 && s[0] == '\r' && s[1] == '\n' {
        seq!['\n', ' ', ' ', ' ', ' '] + spec_indent_body(s.skip(2))
    } else if s[0] == '\n' {
        seq!['\n', ' ', ' ', ' ', ' '] + spec_indent_body(s.drop_first())
    } else {
        seq![s[0]] + spec_indent_body(s.drop_first())
    }
}

/// A text without its final line ending, if it carries one.
pub open spec fn spec_strip_final_newline(s: Seq<char>) -> Seq<char> {
    if s.len() > 0 && s.last() == '\n' {
        if s.len() > 1 && s[s.len() - 2] == '\r' {
            s.take(s.len() - 2)
        } else {
            s.drop_last()
        }
    } else {
        s
    }
}

/// A text re-laid as the lines of a code block: every line indented by
/// four spaces, the final line ending dropped, an empty text left empty.
pub open spec fn spec_indent_lines(s: Seq<char>) -> Seq<char> {
    if s.len() == 0 {
        Seq::empty()
    } else {
        seq![' ', ' ', ' ', ' '] + spec_indent_body(spec_strip_final_newline(s))
    }
}

/// Appends the indented body of `s` from index `i` on.
fn push_indent_body(v: &Vec<char>, i: usize, out: &mut Vec<char>)
    requires
        i <= v@.len(),
    ensures
        final(out)@ == old(out)@ + spec_indent_body(v@.skip(i as int)),
    decreases v@.len() - i,
{
    let ghost s = v@.skip(i as int);
    if i >= v.len() {
        proof {
            assert(final(out)@ =~= old(out)@ + spec_indent_body(s));
        }
        return ;
    }
    proof {
        assert(s[0] == v@[i as int]);
        assert(s.drop_first() =~= v@.skip(i as int + 1));
        if s.len() >= 2 {
            assert(s[1] == v@[i as int + 1]);
            assert(s.skip(2) =~= v@.skip(i as int + 2));
        }
    }
    if v[i] == '\r' && i + 1 < v.len() && v[i + 1] == '\n' {
        out.push('\n');
        out.push(' ');
        out.push(' ');
        out.push(' ');
        out.push(' ');
        push_indent_body(v, i + 2, out);
        proof {
            assert(final(out)@ =~= old(out)@ + spec_indent_body(s));
        }
    } else if v[i] == '\n' {
        out.push('\n');
        out.push(' ');
        out.push(' ');
        out.push(' ');
        out.push(' ');
        push_indent_body(v, i + 1, out);
        proof {
            assert(final(out)@ =~= old(out)@ + spec_indent_body(s));
        }
    } else {
        out.push(v[i]);
        push_indent_body(v, i + 1, out);
        proof {
            assert(final(out)@ =~= old(out)@ + spec_indent_body(s));
        }
    }
}

/// Appends the table text as indented code-block lines.
fn push_indent_lines(s: &str, out: &mut Vec<char>)
    ensures
        final(out)@ == old(out)@ + spec_indent_lines(s@),
{
    let v = str_to_chars(s);
    let n = v.len();
    if n == 0 {
        return ;
    }
    let end: usize = if v[n - 1] == '\n' {
        if n > 1 && v[n - 2] == '\r' {
            n - 2
        } else {
            n - 1
        }
    } else {
        n
    };
    proof {
        assert(v@.take(end as int) =~= spec_strip_final_newline(s@));
    }
    out.push(' ');
    out.push(' ');
    out.push(' ');
    out.push(' ');
    let stripped = str_to_chars(s);
    let mut w: Vec<char> = Vec::new();
    let mut k: usize = 0;
    while k < end
        invariant
            k <= end <= stripped@.len(),
            stripped@ == s@,
            w@ == s@.subrange(0, k as int),
        decreases end - k,
    {
        w.push(stripped[k]);
        proof {
            assert(w@ =~= s@.subrange(0, k + 1 as int));
        }
        k = k + 1;
    }
    proof {
        assert(w@ =~= spec_strip_final_newline(s@));
        assert(w@.skip(0) =~= w@);
    }
    push_indent_body(&w, 0, out);
    proof {
        assert(final(out)@ =~= old(out)@ + spec_indent_lines(s@));
    }
}

// ------------------------------------------------------------------
// The console report

/// The title line of the console report.
pub open spec fn console_title() -> Seq<char> {
    "# Bicep Code Review Results\n\n"@
}

/// The line printed when nothing reached the minimum severity.
pub open spec fn no_issues_line(min: u8) -> Seq<char> {
    "No issues found with severity "@ + spec_dec(min as nat) + " or higher.\n"@
}

/// The line counting the findings that reached the minimum severity.
pub open spec fn found_line(n: nat, min: u8) -> Seq<char> {
    "Found "@ + spec_dec(n) + " issues with severity "@ + spec_dec(min as nat) + " or higher.\n\n"@
}

/// The banner appended when a critical finding is present.
pub open spec fn critical_banner() -> Seq<char> {
    "\n\u{26a0}\u{fe0f} **CRITICAL ISSUES FOUND**\n"@
}

/// The header row of the console table.
pub open spec fn console_header_row() -> Seq<Seq<Seq<char>>> {
    seq![cell_lines("Category"@), cell_lines("Finding"@), cell_lines("Severity"@), cell_lines(
        "Impact"@,
    )]
}

/// The table row of one finding: category, wrapped finding text, the
/// severity label, wrapped impact text — each kept as its cell's lines.
pub open spec fn console_row(f: FindingView) -> Seq<Seq<Seq<char>>> {
    seq![
        cell_lines(f.category),
        cell_lines(filled(f.finding, TABLE_WRAP_WIDTH as int)),
        cell_lines(spec_severity_label(f.severity)),
        cell_lines(filled(f.impact, TABLE_WRAP_WIDTH as int)),
    ]
}

/// All rows of the console table: the header, then one row per finding
/// in their given order.
pub open spec fn console_rows(l: Seq<FindingView>) -> Seq<Seq<Seq<Seq<char>>>> {
    seq![console_header_row()] + l.map_values(|f: FindingView| console_row(f))
}

/// The whole console report of an already filtered and ordered list:
/// the title; then, with no findings, the no-issues line and nothing
/// else; otherwise the count line, the rendered table indented inside a
/// code block, and the critical banner exactly when a severity-5
/// finding is present.
pub open spec fn spec_console_report(l: Seq<FindingView>, min: u8) -> Seq<char> {
    if l.len() == 0 {
        console_title() + no_issues_line(min)
    } else {
        console_title() + found_line(l.len(), min) + "```\n"@ + spec_indent_lines(
            rendered_table(console_rows(l)),
        ) + "\n```\n"@ + if exists|i: int| 0 <= i < l.len() && l[i].severity == 5 {
            critical_banner()
        } else {
            Seq::<char>::empty()
        }
    }
}

/// Renders the console report of a filtered, ordered finding list.
pub fn build_markdown(findings: &Vec<ValidationResult>, min_severity: u8) -> (r: String)
    ensures
        r@ == spec_console_report(findings_view(findings@), min_severity),
{
    let ghost l = findings_view(findings@);
    let mut out: Vec<char> = Vec::new();
    push_str_chars("# Bicep Code Review Results\n\n", &mut out);
    if findings.len() == 0 {
        push_str_chars("No issues found with severity ", &mut out);
        push_dec(min_severity as u64, &mut out);
        push_str_chars(" or higher.\n", &mut out);
        proof {
            assert(out@ =~= spec_console_report(l, min_severity));
        }
        return chars_to_string(&out);
    }
    push_str_chars("Found ", &mut out);
    push_dec(findings.len() as u64, &mut out);
    push_str_chars(" issues with severity ", &mut out);
    push_dec(min_severity as u64, &mut out);
    push_str_chars(" or higher.\n\n", &mut out);

    let mut table = new_table();
    table_add_header_row(&mut table, "Category", "Finding", "Severity", "Impact");
    proof {
        assert(table_rows(table) =~= console_rows(l.take(0)));
    }
    let n = findings.len();
    let mut i: usize = 0;
    while i < n
        invariant
            i <= n,
            n == findings@.len(),
            l == findings_view(findings@),
            table_default_format(table),
            table_rows(table) == console_rows(l.take(i as int)),
        decreases n - i,
    {
        let wrapped_find = fill_text(findings[i].finding.as_str(), TABLE_WRAP_WIDTH);
        let wrapped_imp = fill_text(findings[i].impact.as_str(), TABLE_WRAP_WIDTH);
        let label = severity_label(findings[i].severity);
        table_add_row(
            &mut table,
            findings[i].category.as_str(),
            wrapped_find.as_str(),
            label,
            wrapped_imp.as_str(),
        );
        proof {
            assert(l.take(i + 1 as int) =~= l.take(i as int).push(l[i as int]));
            assert(l[i as int] == findings@[i as int]@);
            assert(l.take(i + 1 as int).map_values(|f: FindingView| console_row(f)) =~= l.take(
                i as int,
            ).map_values(|f: FindingView| console_row(f)).push(console_row(l[i as int])));
            assert(table_rows(table) =~= console_rows(l.take(i + 1 as int)));
        }
        i = i + 1;
    }
    proof {
        assert(l.take(l.len() as int) =~= l);
    }
    let table_str = render_table(&table);
    push_str_chars("```\n", &mut out);
    push_indent_lines(table_str.as_str(), &mut out);
    push_str_chars("\n```\n", &mut out);
    proof {
        assert(forall|j: int|
            0 <= j < l.len() ==> #[trigger] l[j].severity == findings@[j].severity);
    }
    if has_critical(findings) {
        push_str_chars("\n\u{26a0}\u{fe0f} **CRITICAL ISSUES FOUND**\n", &mut out);
        proof {
            let wi = choose|j: int| 0 <= j < findings@.len() && findings@[j].severity == 5;
            assert(l[wi].severity == 5);
            assert(out@ =~= spec_console_report(l, min_severity));
        }
    } else {
        proof {
            assert(out@ =~= spec_console_report(l, min_severity));
        }
    }
    chars_to_string(&out)
}

// ------------------------------------------------------------------
// The pull-request comment

/// The heading of a pull-request comment, naming the file.
pub open spec fn pr_comment_header(path: Seq<char>) -> Seq<char> {
    "## Bicep Review Results for `"@ + path + "`\n\n"@
}

/// The section of one finding in a pull-request comment.
pub open spec fn pr_finding_section(f: FindingView) -> Seq<char> {
    "### "@ + spec_severity_emoji(f.severity) + " Severity "@ + spec_dec(f.severity as nat) + ": "@
        + f.finding + "\n**Impact:** "@ + f.impact + "\n\n"@
}

/// The sections of a list of findings, in their given order.
pub open spec fn pr_finding_sections(l: Seq<FindingView>) -> Seq<char>
    decreases l.len(),
{
    if l.len() == 0 {
        Seq::empty()
    } else {
        pr_finding_section(l[0]) + pr_finding_sections(l.drop_first())
    }
}

/// The whole pull-request comment of one file.
pub open spec fn spec_pr_comment(path: Seq<char>, l: Seq<FindingView>) -> Seq<char> {
    pr_comment_header(path) + pr_finding_sections(l)
}

/// Appends the sections of the findings from index `i` on.
fn push_pr_sections(findings: &Vec<ValidationResult>, i: usize, out: &mut Vec<char>)
    requires
        i <= findings@.len(),
    ensures
        final(out)@ == old(out)@ + pr_finding_sections(findings_view(findings@).skip(i as int)),
    decreases findings@.len() - i,
{
    let ghost l = findings_view(findings@);
    if i < findings.len() {
        push_str_chars("### ", out);
        push_str_chars(severity_emoji(findings[i].severity), out);
        push_str_chars(" Severity ", out);
        push_dec(findings[i].severity as u64, out);
        push_str_chars(": ", out);
        push_str_chars(findings[i].finding.as_str(), out);
        push_str_chars("\n**Impact:** ", out);
        push_str_chars(findings[i].impact.as_str(), out);
        push_str_chars("\n\n", out);
        push_pr_sections(findings, i + 1, out);
        proof {
            assert(l.skip(i as int)[0] == findings@[i as int]@);
            assert(l.skip(i as int).drop_first() =~= l.skip(i + 1 as int));
            assert(final(out)@ =~= old(out)@ + pr_finding_sections(l.skip(i as int)));
        }
    } else {
        proof {
            assert(l.skip(i as int) =~= Seq::<FindingView>::empty());
            assert(final(out)@ =~= old(out)@ + pr_finding_sections(l.skip(i as int)));
        }
    }
}

/// Renders the pull-request comment of one file's filtered, ordered
/// finding list.
pub fn format_pr_comment(file_path: &str, findings: &Vec<ValidationResult>) -> (r: String)
    ensures
        r@ == spec_pr_comment(file_path@, findings_view(findings@)),
{
    let mut out: Vec<char> = Vec::new();
    push_str_chars("## Bicep Review Results for `", &mut out);
    push_str_chars(file_path, &mut out);
    push_str_chars("`\n\n", &mut out);
    push_pr_sections(findings, 0, &mut out);
    proof {
        assert(findings_view(findings@).skip(0) =~= findings_view(findings@));
        assert(out@ =~= spec_pr_comment(file_path@, findings_view(findings@)));
    }
    chars_to_string(&out)
}

} // verus!
