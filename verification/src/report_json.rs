//! The aggregation JSON shape: `{"findings": [{"category": ...,
//! "finding": ..., "severity": 1-5, "impact": ...}, ...]}`.
//!
//! The library both writes this shape (to state what the model is asked
//! for, and to round-trip reports) and reads it (to parse the model's
//! answer).  Reading is permissive the way a JSON reader is expected to
//! be: any order of members, unknown members skipped, the full string
//! escapes; a severity given as text rather than as a number is kept as
//! 0, which any positive minimum severity filters out.

use vstd::prelude::*;

use crate::models::{FinalReport, FindingView, ReviewError, ValidationResult};
use crate::severity::findings_view;
use crate::text::{chars_to_string, push_dec, push_str_chars, spec_dec, str_to_chars};

verus! {

// ------------------------------------------------------------------
// Writing the shape

/// The character of one hexadecimal digit, lower case.
pub open spec fn hex_digit(d: int) -> char {
    if d < 10 {
        ((48 + d) as u8) as char
    } else {
        ((87 + d) as u8) as char
    }
}

/// How one character is written inside a JSON string: quote and
/// backslash are escaped, control characters take the `\u00XX` form,
/// everything else stands as itself.
pub open spec fn esc_char(c: char) -> Seq<char> {
    if c == '"' {
        seq!['\\', '"']
    } else if c == '\\' {
        seq!['\\', '\\']
    } else if (c as u32) < 32 {
        seq!['\\', 'u', '0', '0', hex_digit((c as u32) as int / 16), hex_digit((c as u32) as int % 16)]
    } else {
        seq![c]
    }
}

/// The written body of a JSON string: each character escaped as needed.
pub open spec fn ser_str_body(s: Seq<char>) -> Seq<char>
    decreases s.len(),
{
    if s.len() == 0 {
        Seq::empty()
    } else {
        esc_char(s[0]) + ser_str_body(s.drop_first())
    }
}

/// A written JSON string, quotes included.
pub open spec fn ser_string(s: Seq<char>) -> Seq<char> {
    seq!['"'] + ser_str_body(s) + seq!['"']
}

/// One written finding object, members in a fixed order.
pub open spec fn ser_finding(f: FindingView) -> Seq<char> {
    "{\"category\":"@ + ser_string(f.category) + ",\"finding\":"@ + ser_string(f.finding)
        + ",\"severity\":"@ + spec_dec(f.severity as nat) + ",\"impact\":"@ + ser_string(f.impact)
        + "}"@
}

/// The written list of findings, comma separated.
pub open spec fn ser_findings_body(l: Seq<FindingView>) -> Seq<char>
    decreases l.len(),
{
    if l.len() == 0 {
        Seq::empty()
    } else if l.len() == 1 {
        ser_finding(l[0])
    } else {
        ser_finding(l[0]) + seq![','] + ser_findings_body(l.drop_first())
    }
}

/// A whole written report.
pub open spec fn ser_report(l: Seq<FindingView>) -> Seq<char> {
    "{\"findings\":["@ + ser_findings_body(l) + "]}"@
}

/// Writing a string body one appended character at a time agrees with
/// writing it whole.
pub proof fn lemma_ser_str_body_snoc(s: Seq<char>, c: char)
    ensures
        ser_str_body(s.push(c)) == ser_str_body(s) + esc_char(c),
    decreases s.len(),
{
    reveal_with_fuel(ser_str_body, 2);
    if s.len() == 0 {
        assert(s.push(c).drop_first() =~= Seq::<char>::empty());
        assert(s.push(c)[0] == c);
        assert(ser_str_body(s.push(c)) =~= ser_str_body(s) + esc_char(c));
    } else {
        assert(s.push(c).drop_first() =~= s.drop_first().push(c));
        lemma_ser_str_body_snoc(s.drop_first(), c);
        assert(ser_str_body(s.push(c)) =~= ser_str_body(s) + esc_char(c));
    }
}

/// Appends the escaped form of one character.
fn push_esc_char(c: char, out: &mut Vec<char>)
    ensures
        final(out)@ == old(out)@ + esc_char(c),
{
    if c == '"' {
        out.push('\\');
        out.push('"');
    } else if c == '\\' {
        out.push('\\');
        out.push('\\');
    } else if (c as u32) < 32 {
        let u = c as u32;
        out.push('\\');
        out.push('u');
        out.push('0');
        out.push('0');
        let hi = (u / 16) as u8;
        let lo = (u % 16) as u8;
        if hi < 10 {
            out.push((48 + hi) as char);
        } else {
            out.push((87 + hi) as char);
        }
        if lo < 10 {
            out.push((48 + lo) as char);
        } else {
            out.push((87 + lo) as char);
        }
    } else {
        out.push(c);
    }
    proof {
        assert(final(out)@ =~= old(out)@ + esc_char(c));
    }
}

/// Appends a written JSON string, quotes included.
fn push_json_string(s: &str, out: &mut Vec<char>)
    ensures
        final(out)@ == old(out)@ + ser_string(s@),
{
    let chars = str_to_chars(s);
    out.push('"');
    let n = chars.len();
    let mut i: usize = 0;
    while i < n
        invariant
            i <= n,
            n == chars@.len(),
            chars@ == s@,
            out@ == old(out)@ + seq!['"'] + ser_str_body(s@.subrange(0, i as int)),
        decreases n - i,
    {
        push_esc_char(chars[i], out);
        proof {
            assert(s@.subrange(0, i + 1 as int) =~= s@.subrange(0, i as int).push(s@[i as int]));
            lemma_ser_str_body_snoc(s@.subrange(0, i as int), s@[i as int]);
        }
        i = i + 1;
    }
    out.push('"');
    proof {
        assert(s@.subrange(0, s@.len() as int) =~= s@);
        assert(final(out)@ =~= old(out)@ + ser_string(s@));
    }
}

/// Appends one written finding object.
fn push_finding(f: &ValidationResult, out: &mut Vec<char>)
    ensures
        final(out)@ == old(out)@ + ser_finding(f@),
{
    push_str_chars("{\"category\":", out);
    push_json_string(f.category.as_str(), out);
    push_str_chars(",\"finding\":", out);
    push_json_string(f.finding.as_str(), out);
    push_str_chars(",\"severity\":", out);
    push_dec(f.severity as u64, out);
    push_str_chars(",\"impact\":", out);
    push_json_string(f.impact.as_str(), out);
    push_str_chars("}", out);
    proof {
        assert(final(out)@ =~= old(out)@ + ser_finding(f@));
    }
}

/// Appends the written findings from index `i` on, comma separated.
fn push_findings_body(findings: &Vec<ValidationResult>, i: usize, out: &mut Vec<char>)
    requires
        i <= findings@.len(),
    ensures
        final(out)@ == old(out)@ + ser_findings_body(findings_view(findings@).skip(i as int)),
    decreases findings@.len() - i,
{
    let ghost l = findings_view(findings@);
    if i < findings.len() {
        push_finding(&findings[i], out);
        proof {
            assert(l.skip(i as int)[0] == findings@[i as int]@);
        }
        if i + 1 < findings.len() {
            out.push(',');
            push_findings_body(findings, i + 1, out);
            proof {
                assert(l.skip(i as int).drop_first() =~= l.skip(i + 1 as int));
                assert(l.skip(i as int).len() > 1);
                assert(final(out)@ =~= old(out)@ + ser_findings_body(l.skip(i as int)));
            }
        } else {
            proof {
                assert(l.skip(i as int).len() == 1);
                assert(final(out)@ =~= old(out)@ + ser_findings_body(l.skip(i as int)));
            }
        }
    } else {
        proof {
            assert(l.skip(i as int) =~= Seq::<FindingView>::empty());
            assert(final(out)@ =~= old(out)@ + ser_findings_body(l.skip(i as int)));
        }
    }
}

// ------------------------------------------------------------------
// Reading the shape — the grammar, each function over the characters
// that remain, handing back what remains after it

/// JSON whitespace.
pub open spec fn is_ws(c: char) -> bool {
    c == ' ' || c == '\t' || c == '\n' || c == '\r'
}

/// A decimal digit.
pub open spec fn is_digit(c: char) -> bool {
    48 <= c as u32 <= 57
}

/// Whether the whole sequence is whitespace.
pub open spec fn spec_ws_only(s: Seq<char>) -> bool
    decreases s.len(),
{
    if s.len() == 0 {
        true
    } else if is_ws(s[0]) {
        spec_ws_only(s.drop_first())
    } else {
        false
    }
}

/// The value of one hexadecimal digit, either case.
pub open spec fn hex_val(c: char) -> Option<int> {
    if 48 <= c as u32 <= 57 {
        Some(c as u32 as int - 48)
    } else if 97 <= c as u32 <= 102 {
        Some(c as u32 as int - 87)
    } else if 65 <= c as u32 <= 70 {
        Some(c as u32 as int - 55)
    } else {
        None
    }
}

/// The value of four leading hexadecimal digits.
pub open spec fn hex4(s: Seq<char>) -> Option<int> {
    if s.len() >= 4 {
        match (hex_val(s[0]), hex_val(s[1]), hex_val(s[2]), hex_val(s[3])) {
            (Some(a), Some(b), Some(c), Some(d)) => Some(a * 4096 + b * 256 + c * 16 + d),
            _ => None,
        }
    } else {
        None
    }
}

/// A `\uXXXX` escape, read after its `\u`: one scalar, or a surrogate
/// pair combined into one character.
pub open spec fn spec_parse_unicode_escape(s: Seq<char>) -> Option<(char, Seq<char>)> {
    match hex4(s) {
        None => None,
        Some(u) => if 0xD800 <= u < 0xDC00 {
            if s.len() >= 10 && s[4] == '\\' && s[5] == 'u' {
                match hex4(s.skip(6)) {
                    None => None,
                    Some(lo) => if 0xDC00 <= lo < 0xE000 {
                        Some(
                            (
                                ((0x10000 + (u - 0xD800) * 0x400 + (lo - 0xDC00)) as u32) as char,
                                s.skip(10),
                            ),
                        )
                    } else {
                        None
                    },
                }
            } else {
                None
            }
        } else if 0xDC00 <= u < 0xE000 {
            None
        } else {
            Some(((u as u32) as char, s.skip(4)))
        },
    }
}

/// One string escape, read after its backslash.
pub open spec fn spec_parse_escape(s: Seq<char>) -> Option<(char, Seq<char>)> {
    if s.len() == 0 {
        None
    } else if s[0] == '"' {
        Some(('"', s.drop_first()))
    } else if s[0] == '\\' {
        Some(('\\', s.drop_first()))
    } else if s[0] == '/' {
        Some(('/', s.drop_first()))
    } else if s[0] == 'b' {
        Some(('\u{8}', s.drop_first()))
    } else if s[0] == 'f' {
        Some(('\u{c}', s.drop_first()))
    } else if s[0] == 'n' {
        Some(('\n', s.drop_first()))
    } else if s[0] == 'r' {
        Some(('\r', s.drop_first()))
    } else if s[0] == 't' {
        Some(('\t', s.drop_first()))
    } else if s[0] == 'u' {
        spec_parse_unicode_escape(s.drop_first())
    } else {
        None
    }
}

/// The body of a string, read after its opening quote, up to and past
/// the closing quote.  Unescaped control characters are refused.
pub open spec fn spec_parse_str_body(s: Seq<char>) -> Option<(Seq<char>, Seq<char>)>
    decreases s.len(),
{
    if s.len() == 0 {
        None
    } else if s[0] == '"' {
        Some((Seq::empty(), s.drop_first()))
    } else if s[0] == '\\' {
        match spec_parse_escape(s.drop_first()) {
            None => None,
            Some((c, r)) => if r.len() < s.len() {
                match spec_parse_str_body(r) {
                    None => None,
                    Some((t, r2)) => Some((seq![c] + t, r2)),
                }
            } else {
                None
            },
        }
    } else if (s[0] as u32) < 32 {
        None
    } else {
        match spec_parse_str_body(s.drop_first()) {
            None => None,
            Some((t, r)) => Some((seq![s[0]] + t, r)),
        }
    }
}

/// A whole string, quotes included.
pub open spec fn spec_parse_string(s: Seq<char>) -> Option<(Seq<char>, Seq<char>)> {
    if s.len() > 0 && s[0] == '"' {
        spec_parse_str_body(s.drop_first())
    } else {
        None
    }
}

/// How many digits the sequence begins with.
pub open spec fn spec_digits_end(s: Seq<char>) -> int
    decreases s.len(),
{
    if s.len() > 0 && is_digit(s[0]) {
        1 + spec_digits_end(s.drop_first())
    } else {
        0
    }
}

/// The number read from a digit sequence, most significant first,
/// continuing from `acc`.
pub open spec fn digits_val_acc(s: Seq<char>, acc: nat) -> nat
    decreases s.len(),
{
    if s.len() == 0 {
        acc
    } else {
        digits_val_acc(s.drop_first(), acc * 10 + (s[0] as u32 - 48) as nat)
    }
}

/// A severity given as a number: plain digits without a leading zero,
/// fraction or exponent, no larger than 255.
pub open spec fn spec_parse_severity_number(s: Seq<char>) -> Option<(u8, Seq<char>)> {
    let n = spec_digits_end(s);
    if n == 0 {
        None
    } else if s[0] == '0' && n > 1 {
        None
    } else {
        let v = digits_val_acc(s.take(n), 0);
        let r = s.skip(n);
        if r.len() > 0 && (r[0] == '.' || r[0] == 'e' || r[0] == 'E') {
            None
        } else if v <= 255 {
            Some((v as u8, r))
        } else {
            None
        }
    }
}

/// A severity value: a number is taken as it stands; a string is kept
/// as severity 0, the coercion the report applies to a severity the
/// model wrote as text.
pub open spec fn spec_parse_severity(s: Seq<char>) -> Option<(u8, Seq<char>)> {
    if s.len() > 0 && s[0] == '"' {
        match spec_parse_string(s) {
            None => None,
            Some((_t, r)) => Some((0u8, r)),
        }
    } else {
        spec_parse_severity_number(s)
    }
}

/// A number skipped without keeping its value: optional sign, integer
/// part, optional fraction and exponent.
pub open spec fn spec_skip_number(s: Seq<char>) -> Option<Seq<char>> {
    let t = if s.len() > 0 && s[0] == '-' {
        s.drop_first()
    } else {
        s
    };
    let n = spec_digits_end(t);
    if n == 0 || (t[0] == '0' && n > 1) {
        None
    } else {
        spec_skip_fraction(t.skip(n))
    }
}

/// The optional fraction part of a skipped number.
pub open spec fn spec_skip_fraction(s: Seq<char>) -> Option<Seq<char>> {
    if s.len() > 0 && s[0] == '.' {
        let n = spec_digits_end(s.drop_first());
        if n == 0 {
            None
        } else {
            spec_skip_exponent(s.drop_first().skip(n))
        }
    } else {
        spec_skip_exponent(s)
    }
}

/// The optional exponent part of a skipped number.
pub open spec fn spec_skip_exponent(s: Seq<char>) -> Option<Seq<char>> {
    if s.len() > 0 && (s[0] == 'e' || s[0] == 'E') {
        let t = if s.len() > 1 && (s[1] == '+' || s[1] == '-') {
            s.skip(2)
        } else {
            s.drop_first()
        };
        let n = spec_digits_end(t);
        if n == 0 {
            None
        } else {
            Some(t.skip(n))
        }
    } else {
        Some(s)
    }
}

/// Any JSON value skipped without keeping it: a member the shape does
/// not know is read past and dropped.
pub open spec fn spec_skip_value(s: Seq<char>) -> Option<Seq<char>>
    decreases s.len(), 0int,
{
    if s.len() == 0 {
        None
    } else if s[0] == '"' {
        match spec_parse_str_body(s.drop_first()) {
            None => None,
            Some((_t, r)) => Some(r),
        }
    } else if s[0] == '[' {
        spec_skip_elems(s.drop_first(), true)
    } else if s[0] == '{' {
        spec_skip_members(s.drop_first(), true)
    } else if s[0] == 't' {
        if s.len() >= 4 && s[1] == 'r' && s[2] == 'u' && s[3] == 'e' {
            Some(s.skip(4))
        } else {
            None
        }
    } else if s[0] == 'f' {
        if s.len() >= 5 && s[1] == 'a' && s[2] == 'l' && s[3] == 's' && s[4] == 'e' {
            Some(s.skip(5))
        } else {
            None
        }
    } else if s[0] == 'n' {
        if s.len() >= 4 && s[1] == 'u' && s[2] == 'l' && s[3] == 'l' {
            Some(s.skip(4))
        } else {
            None
        }
    } else {
        spec_skip_number(s)
    }
}

/// The inside of a skipped array, read after `[` or after a comma.
pub open spec fn spec_skip_elems(s: Seq<char>, first: bool) -> Option<Seq<char>>
    decreases s.len(), 1int,
{
    if s.len() == 0 {
        None
    } else if is_ws(s[0]) {
        spec_skip_elems(s.drop_first(), first)
    } else if first && s[0] == ']' {
        Some(s.drop_first())
    } else {
        match spec_skip_value(s) {
            None => None,
            Some(r) => if r.len() < s.len() {
                spec_skip_arr_tail(r)
            } else {
                None
            },
        }
    }
}

/// What follows a skipped array element: the closing bracket or a comma.
pub open spec fn spec_skip_arr_tail(s: Seq<char>) -> Option<Seq<char>>
    decreases s.len(), 1int,
{
    if s.len() == 0 {
        None
    } else if is_ws(s[0]) {
        spec_skip_arr_tail(s.drop_first())
    } else if s[0] == ']' {
        Some(s.drop_first())
    } else if s[0] == ',' {
        spec_skip_elems(s.drop_first(), false)
    } else {
        None
    }
}

/// The inside of a skipped object, read after `{` or after a comma.
pub open spec fn spec_skip_members(s: Seq<char>, first: bool) -> Option<Seq<char>>
    decreases s.len(), 1int,
{
    if s.len() == 0 {
        None
    } else if is_ws(s[0]) {
        spec_skip_members(s.drop_first(), first)
    } else if first && s[0] == '}' {
        Some(s.drop_first())
    } else if s[0] == '"' {
        match spec_parse_str_body(s.drop_first()) {
            None => None,
            Some((_k, r)) => if r.len() < s.len() {
                spec_skip_colon_value(r)
            } else {
                None
            },
        }
    } else {
        None
    }
}

/// The colon and value of a skipped member.
pub open spec fn spec_skip_colon_value(s: Seq<char>) -> Option<Seq<char>>
    decreases s.len(), 1int,
{
    if s.len() == 0 {
        None
    } else if is_ws(s[0]) {
        spec_skip_colon_value(s.drop_first())
    } else if s[0] == ':' {
        spec_skip_member_value(s.drop_first())
    } else {
        None
    }
}

/// The value of a skipped member, whitespace allowed before it.
pub open spec fn spec_skip_member_value(s: Seq<char>) -> Option<Seq<char>>
    decreases s.len(), 1int,
{
    if s.len() == 0 {
        None
    } else if is_ws(s[0]) {
        spec_skip_member_value(s.drop_first())
    } else {
        match spec_skip_value(s) {
            None => None,
            Some(r) => if r.len() < s.len() {
                spec_skip_obj_tail(r)
            } else {
                None
            },
        }
    }
}

/// What follows a skipped member: the closing brace or a comma.
pub open spec fn spec_skip_obj_tail(s: Seq<char>) -> Option<Seq<char>>
    decreases s.len(), 1int,
{
    if s.len() == 0 {
        None
    } else if is_ws(s[0]) {
        spec_skip_obj_tail(s.drop_first())
    } else if s[0] == '}' {
        Some(s.drop_first())
    } else if s[0] == ',' {
        spec_skip_members(s.drop_first(), false)
    } else {
        None
    }
}

/// A finding object under construction: the members seen so far.
#[verifier::ext_equal]
pub ghost struct PartialFindingView {
    pub category: Option<Seq<char>>,
    pub finding: Option<Seq<char>>,
    pub severity: Option<u8>,
    pub impact: Option<Seq<char>>,
}

/// The partial finding with nothing seen yet.
pub open spec fn empty_partial() -> PartialFindingView {
    PartialFindingView { category: None, finding: None, severity: None, impact: None }
}

/// A finished finding object: every member must have appeared.
pub open spec fn finish_finding(acc: PartialFindingView, rem: Seq<char>) -> Option<
    (FindingView, Seq<char>),
> {
    match (acc.category, acc.finding, acc.severity, acc.impact) {
        (Some(c), Some(f), Some(sv), Some(im)) => Some(
            (FindingView { category: c, finding: f, severity: sv, impact: im }, rem),
        ),
        _ => None,
    }
}

/// One finding object, read from its opening brace.
pub open spec fn spec_parse_finding(s: Seq<char>) -> Option<(FindingView, Seq<char>)> {
    if s.len() > 0 && s[0] == '{' {
        spec_parse_fmembers(s.drop_first(), empty_partial(), true)
    } else {
        None
    }
}

/// The members of a finding object, read after `{` or after a comma.
pub open spec fn spec_parse_fmembers(s: Seq<char>, acc: PartialFindingView, first: bool) -> Option<
    (FindingView, Seq<char>),
>
    decreases s.len(), 1int,
{
    if s.len() == 0 {
        None
    } else if is_ws(s[0]) {
        spec_parse_fmembers(s.drop_first(), acc, first)
    } else if first && s[0] == '}' {
        finish_finding(acc, s.drop_first())
    } else if s[0] == '"' {
        match spec_parse_str_body(s.drop_first()) {
            None => None,
            Some((k, r)) => if r.len() < s.len() {
                spec_parse_fcolon(r, acc, k)
            } else {
                None
            },
        }
    } else {
        None
    }
}

/// The colon of a finding member.
pub open spec fn spec_parse_fcolon(s: Seq<char>, acc: PartialFindingView, k: Seq<char>) -> Option<
    (FindingView, Seq<char>),
>
    decreases s.len(), 1int,
{
    if s.len() == 0 {
        None
    } else if is_ws(s[0]) {
        spec_parse_fcolon(s.drop_first(), acc, k)
    } else if s[0] == ':' {
        spec_parse_fvalue(s.drop_first(), acc, k)
    } else {
        None
    }
}

/// The value of a finding member: the four known members are kept, a
/// member seen twice is refused, anything else is skipped.
pub open spec fn spec_parse_fvalue(s: Seq<char>, acc: PartialFindingView, k: Seq<char>) -> Option<
    (FindingView, Seq<char>),
>
    decreases s.len(), 1int,
{
    if s.len() == 0 {
        None
    } else if is_ws(s[0]) {
        spec_parse_fvalue(s.drop_first(), acc, k)
    } else if k == "category"@ {
        if acc.category is Some {
            None
        } else {
            match spec_parse_string(s) {
                None => None,
                Some((t, r)) => if r.len() < s.len() {
                    spec_parse_ftail(r, PartialFindingView { category: Some(t), ..acc })
                } else {
                    None
                },
            }
        }
    } else if k == "finding"@ {
        if acc.finding is Some {
            None
        } else {
            match spec_parse_string(s) {
                None => None,
                Some((t, r)) => if r.len() < s.len() {
                    spec_parse_ftail(r, PartialFindingView { finding: Some(t), ..acc })
                } else {
                    None
                },
            }
        }
    } else if k == "severity"@ {
        if acc.severity is Some {
            None
        } else {
            match spec_parse_severity(s) {
                None => None,
                Some((sv, r)) => if r.len() < s.len() {
                    spec_parse_ftail(r, PartialFindingView { severity: Some(sv), ..acc })
                } else {
                    None
                },
            }
        }
    } else if k == "impact"@ {
        if acc.impact is Some {
            None
        } else {
            match spec_parse_string(s) {
                None => None,
                Some((t, r)) => if r.len() < s.len() {
                    spec_parse_ftail(r, PartialFindingView { impact: Some(t), ..acc })
                } else {
                    None
                },
            }
        }
    } else {
        match spec_skip_value(s) {
            None => None,
            Some(r) => if r.len() < s.len() {
                spec_parse_ftail(r, acc)
            } else {
                None
            },
        }
    }
}

/// What follows a finding member: the closing brace or a comma.
pub open spec fn spec_parse_ftail(s: Seq<char>, acc: PartialFindingView) -> Option<
    (FindingView, Seq<char>),
>
    decreases s.len(), 1int,
{
    if s.len() == 0 {
        None
    } else if is_ws(s[0]) {
        spec_parse_ftail(s.drop_first(), acc)
    } else if s[0] == '}' {
        finish_finding(acc, s.drop_first())
    } else if s[0] == ',' {
        spec_parse_fmembers(s.drop_first(), acc, false)
    } else {
        None
    }
}

/// The findings array, read from its opening bracket.
pub open spec fn spec_parse_findings(s: Seq<char>) -> Option<(Seq<FindingView>, Seq<char>)> {
    if s.len() > 0 && s[0] == '[' {
        spec_parse_felems(s.drop_first(), Seq::empty(), true)
    } else {
        None
    }
}

/// The elements of the findings array, read after `[` or after a comma.
pub open spec fn spec_parse_felems(s: Seq<char>, acc: Seq<FindingView>, first: bool) -> Option<
    (Seq<FindingView>, Seq<char>),
>
    decreases s.len(), 1int,
{
    if s.len() == 0 {
        None
    } else if is_ws(s[0]) {
        spec_parse_felems(s.drop_first(), acc, first)
    } else if first && s[0] == ']' {
        Some((acc, s.drop_first()))
    } else {
        match spec_parse_finding(s) {
            None => None,
            Some((f, r)) => if r.len() < s.len() {
                spec_parse_fl_tail(r, acc.push(f))
            } else {
                None
            },
        }
    }
}

/// What follows a findings array element: the closing bracket or a comma.
pub open spec fn spec_parse_fl_tail(s: Seq<char>, acc: Seq<FindingView>) -> Option<
    (Seq<FindingView>, Seq<char>),
>
    decreases s.len(), 1int,
{
    if s.len() == 0 {
        None
    } else if is_ws(s[0]) {
        spec_parse_fl_tail(s.drop_first(), acc)
    } else if s[0] == ']' {
        Some((acc, s.drop_first()))
    } else if s[0] == ',' {
        spec_parse_felems(s.drop_first(), acc, false)
    } else {
        None
    }
}

/// The report object, read from its opening brace: the `findings`
/// member is kept, a member seen twice is refused, others are skipped.
pub open spec fn spec_parse_report_obj(s: Seq<char>) -> Option<(Seq<FindingView>, Seq<char>)> {
    if s.len() > 0 && s[0] == '{' {
        spec_parse_rmembers(s.drop_first(), None, true)
    } else {
        None
    }
}

/// A finished report object: the `findings` member must have appeared.
pub open spec fn finish_report(acc: Option<Seq<FindingView>>, rem: Seq<char>) -> Option<
    (Seq<FindingView>, Seq<char>),
> {
    match acc {
        Some(l) => Some((l, rem)),
        None => None,
    }
}

/// The members of the report object, read after `{` or after a comma.
pub open spec fn spec_parse_rmembers(s: Seq<char>, acc: Option<Seq<FindingView>>, first: bool) -> Option<
    (Seq<FindingView>, Seq<char>),
>
    decreases s.len(), 1int,
{
    if s.len() == 0 {
        None
    } else if is_ws(s[0]) {
        spec_parse_rmembers(s.drop_first(), acc, first)
    } else if first && s[0] == '}' {
        finish_report(acc, s.drop_first())
    } else if s[0] == '"' {
        match spec_parse_str_body(s.drop_first()) {
            None => None,
            Some((k, r)) => if r.len() < s.len() {
                spec_parse_rcolon(r, acc, k)
            } else {
                None
            },
        }
    } else {
        None
    }
}

/// The colon of a report member.
pub open spec fn spec_parse_rcolon(s: Seq<char>, acc: Option<Seq<FindingView>>, k: Seq<char>) -> Option<
    (Seq<FindingView>, Seq<char>),
>
    decreases s.len(), 1int,
{
    if s.len() == 0 {
        None
    } else if is_ws(s[0]) {
        spec_parse_rcolon(s.drop_first(), acc, k)
    } else if s[0] == ':' {
        spec_parse_rvalue(s.drop_first(), acc, k)
    } else {
        None
    }
}

/// The value of a report member.
pub open spec fn spec_parse_rvalue(s: Seq<char>, acc: Option<Seq<FindingView>>, k: Seq<char>) -> Option<
    (Seq<FindingView>, Seq<char>),
>
    decreases s.len(), 1int,
{
    if s.len() == 0 {
        None
    } else if is_ws(s[0]) {
        spec_parse_rvalue(s.drop_first(), acc, k)
    } else if k == "findings"@ {
        if acc is Some {
            None
        } else {
            match spec_parse_findings(s) {
                None => None,
                Some((l, r)) => if r.len() < s.len() {
                    spec_parse_rtail(r, Some(l))
                } else {
                    None
                },
            }
        }
    } else {
        match spec_skip_value(s) {
            None => None,
            Some(r) => if r.len() < s.len() {
                spec_parse_rtail(r, acc)
            } else {
                None
            },
        }
    }
}

/// What follows a report member: the closing brace or a comma.
pub open spec fn spec_parse_rtail(s: Seq<char>, acc: Option<Seq<FindingView>>) -> Option<
    (Seq<FindingView>, Seq<char>),
>
    decreases s.len(), 1int,
{
    if s.len() == 0 {
        None
    } else if is_ws(s[0]) {
        spec_parse_rtail(s.drop_first(), acc)
    } else if s[0] == '}' {
        finish_report(acc, s.drop_first())
    } else if s[0] == ',' {
        spec_parse_rmembers(s.drop_first(), acc, false)
    } else {
        None
    }
}

/// The report object with leading whitespace allowed.
pub open spec fn spec_parse_top(s: Seq<char>) -> Option<(Seq<FindingView>, Seq<char>)>
    decreases s.len(),
{
    if s.len() > 0 && is_ws(s[0]) {
        spec_parse_top(s.drop_first())
    } else {
        spec_parse_report_obj(s)
    }
}

/// What a whole input means: the report object, nothing but whitespace
/// around it, or nothing at all.
pub open spec fn spec_parse_report(s: Seq<char>) -> Option<Seq<FindingView>> {
    match spec_parse_top(s) {
        None => None,
        Some((l, r)) => if spec_ws_only(r) {
            Some(l)
        } else {
            None
        },
    }
}

// ------------------------------------------------------------------
// Reading the shape — the reader itself, one function per grammar rule

/// Dropping the first character of a suffix moves the suffix on by one.
proof fn lemma_skip_succ(v: Seq<char>, i: int)
    requires
        0 <= i < v.len(),
    ensures
        v.skip(i).drop_first() == v.skip(i + 1),
        v.skip(i)[0] == v[i],
        v.skip(i).len() == v.len() - i,
{
    assert(v.skip(i).drop_first() =~= v.skip(i + 1));
}

/// Skipping twice is skipping once for the sum.
proof fn lemma_skip_skip(v: Seq<char>, i: int, j: int)
    requires
        0 <= i <= j <= v.len(),
    ensures
        v.skip(i).skip(j - i) == v.skip(j),
{
    assert(v.skip(i).skip(j - i) =~= v.skip(j));
}

/// Whether a character is JSON whitespace.
fn is_ws_char(c: char) -> (b: bool)
    ensures
        b == is_ws(c),
{
    c == ' ' || c == '\t' || c == '\n' || c == '\r'
}

/// Whether a character is a decimal digit.
fn is_digit_char(c: char) -> (b: bool)
    ensures
        b == is_digit(c),
{
    let u = c as u32;
    48 <= u && u <= 57
}

/// The value of one hexadecimal digit, either case.
fn hex_digit_val(c: char) -> (r: Option<u8>)
    ensures
        r is Some <==> hex_val(c) is Some,
        r matches Some(x) ==> hex_val(c) == Some(x as int),
{
    let u = c as u32;
    if 48 <= u && u <= 57 {
        Some((u - 48) as u8)
    } else if 97 <= u && u <= 102 {
        Some((u - 87) as u8)
    } else if 65 <= u && u <= 70 {
        Some((u - 55) as u8)
    } else {
        None
    }
}

/// Whether a sequence of characters equals the characters of a literal.
fn chars_eq_str(v: &Vec<char>, s: &str) -> (b: bool)
    ensures
        b == (v@ == s@),
{
    let w = str_to_chars(s);
    if v.len() != w.len() {
        return false;
    }
    let n = v.len();
    let mut i: usize = 0;
    while i < n
        invariant
            i <= n,
            n == v@.len() == w@.len(),
            w@ == s@,
            forall|k: int| 0 <= k < i ==> v@[k] == w@[k],
        decreases n - i,
    {
        if v[i] != w[i] {
            return false;
        }
        i = i + 1;
    }
    proof {
        assert(v@ =~= s@);
    }
    true
}

/// Reads a `\uXXXX` escape after its `\u`.
fn parse_unicode(v: &Vec<char>, i: usize) -> (r: Option<(char, usize)>)
    requires
        i <= v@.len(),
    ensures
        r matches Some((c, j)) ==> i <= j <= v@.len() && spec_parse_unicode_escape(
            v@.skip(i as int),
        ) == Some((c, v@.skip(j as int))),
        r is None ==> spec_parse_unicode_escape(v@.skip(i as int)) is None,
{
    let ghost s = v@.skip(i as int);
    if v.len() - i < 4 {
        return None;
    }
    let h0 = hex_digit_val(v[i]);
    let h1 = hex_digit_val(v[i + 1]);
    let h2 = hex_digit_val(v[i + 2]);
    let h3 = hex_digit_val(v[i + 3]);
    proof {
        assert(s[0] == v@[i as int]);
        assert(s[1] == v@[i as int + 1]);
        assert(s[2] == v@[i as int + 2]);
        assert(s[3] == v@[i as int + 3]);
    }
    match (h0, h1, h2, h3) {
        (Some(a), Some(b), Some(c), Some(d)) => {
            let u: u32 = (a as u32) * 4096 + (b as u32) * 256 + (c as u32) * 16 + (d as u32);
            proof {
                assert(hex4(s) == Some(u as int));
            }
            if 0xD800 <= u && u < 0xDC00 {
                if v.len() - i >= 10 && v[i + 4] == '\\' && v[i + 5] == 'u' {
                    proof {
                        assert(s[4] == v@[i as int + 4]);
                        assert(s[5] == v@[i as int + 5]);
                        lemma_skip_skip(v@, i as int, i as int + 6);
                        assert(s.skip(6)[0] == v@[i as int + 6]);
                        assert(s.skip(6)[1] == v@[i as int + 7]);
                        assert(s.skip(6)[2] == v@[i as int + 8]);
                        assert(s.skip(6)[3] == v@[i as int + 9]);
                    }
                    let g0 = hex_digit_val(v[i + 6]);
                    let g1 = hex_digit_val(v[i + 7]);
                    let g2 = hex_digit_val(v[i + 8]);
                    let g3 = hex_digit_val(v[i + 9]);
                    match (g0, g1, g2, g3) {
                        (Some(a2), Some(b2), Some(c2), Some(d2)) => {
                            let lo: u32 = (a2 as u32) * 4096 + (b2 as u32) * 256 + (c2 as u32) * 16
                                + (d2 as u32);
                            proof {
                                assert(hex4(s.skip(6)) == Some(lo as int));
                            }
                            if 0xDC00 <= lo && lo < 0xE000 {
                                let code: u32 = 0x10000 + (u - 0xD800) * 0x400 + (lo - 0xDC00);
                                let copt = crate::text::char_from_u32(code);
                                match copt {
                                    Some(ch) => {
                                        proof {
                                            vstd::utf8::char_u32_cast(ch, code);
                                            lemma_skip_skip(v@, i as int, i as int + 10);
                                        }
                                        Some((ch, i + 10))
                                    },
                                    None => {
                                        proof {
                                            assert(false);
                                        }
                                        None
                                    },
                                }
                            } else {
                                None
                            }
                        },
                        _ => None,
                    }
                } else {
                    None
                }
            } else if 0xDC00 <= u && u < 0xE000 {
                None
            } else {
                let copt = crate::text::char_from_u32(u);
                match copt {
                    Some(ch) => {
                        proof {
                            vstd::utf8::char_u32_cast(ch, u);
                            lemma_skip_skip(v@, i as int, i as int + 4);
                        }
                        Some((ch, i + 4))
                    },
                    None => {
                        proof {
                            assert(false);
                        }
                        None
                    },
                }
            }
        },
        _ => {
            proof {
                assert(hex4(s) is None);
            }
            None
        },
    }
}

/// Reads one string escape after its backslash.
fn parse_escape(v: &Vec<char>, i: usize) -> (r: Option<(char, usize)>)
    requires
        i <= v@.len(),
    ensures
        r matches Some((c, j)) ==> i < j <= v@.len() && spec_parse_escape(v@.skip(i as int))
            == Some((c, v@.skip(j as int))),
        r is None ==> spec_parse_escape(v@.skip(i as int)) is None,
{
    let ghost s = v@.skip(i as int);
    if i >= v.len() {
        return None;
    }
    proof {
        lemma_skip_succ(v@, i as int);
    }
    let c0 = v[i];
    if c0 == '"' {
        Some(('"', i + 1))
    } else if c0 == '\\' {
        Some(('\\', i + 1))
    } else if c0 == '/' {
        Some(('/', i + 1))
    } else if c0 == 'b' {
        Some(('\u{8}', i + 1))
    } else if c0 == 'f' {
        Some(('\u{c}', i + 1))
    } else if c0 == 'n' {
        Some(('\n', i + 1))
    } else if c0 == 'r' {
        Some(('\r', i + 1))
    } else if c0 == 't' {
        Some(('\t', i + 1))
    } else if c0 == 'u' {
        match parse_unicode(v, i + 1) {
            Some((c, j)) => Some((c, j)),
            None => None,
        }
    } else {
        None
    }
}

/// Reads the body of a string after its opening quote, up to and past
/// the closing quote.
fn parse_str_body(v: &Vec<char>, i: usize) -> (r: Option<(Vec<char>, usize)>)
    requires
        i <= v@.len(),
    ensures
        r matches Some((t, j)) ==> i <= j <= v@.len() && spec_parse_str_body(v@.skip(i as int))
            == Some((t@, v@.skip(j as int))),
        r is None ==> spec_parse_str_body(v@.skip(i as int)) is None,
    decreases v@.len() - i,
{
    let ghost s = v@.skip(i as int);
    if i >= v.len() {
        return None;
    }
    proof {
        lemma_skip_succ(v@, i as int);
    }
    let c0 = v[i];
    if c0 == '"' {
        let t: Vec<char> = Vec::new();
        proof {
            assert(t@ =~= Seq::<char>::empty());
        }
        Some((t, i + 1))
    } else if c0 == '\\' {
        match parse_escape(v, i + 1) {
            None => None,
            Some((c, j)) => {
                match parse_str_body(v, j) {
                    None => None,
                    Some((mut t, j2)) => {
                        t.insert(0, c);
                        proof {
                            assert(t@ =~= seq![c] + (spec_parse_str_body(v@.skip(j as int))->0).0);
                        }
                        Some((t, j2))
                    },
                }
            },
        }
    } else if (c0 as u32) < 32 {
        None
    } else {
        match parse_str_body(v, i + 1) {
            None => None,
            Some((mut t, j)) => {
                t.insert(0, c0);
                proof {
                    assert(t@ =~= seq![c0] + (spec_parse_str_body(v@.skip(i as int + 1))->0).0);
                }
                Some((t, j))
            },
        }
    }
}

/// Reads a whole string, quotes included.
fn parse_string(v: &Vec<char>, i: usize) -> (r: Option<(Vec<char>, usize)>)
    requires
        i <= v@.len(),
    ensures
        r matches Some((t, j)) ==> i < j <= v@.len() && spec_parse_string(v@.skip(i as int))
            == Some((t@, v@.skip(j as int))),
        r is None ==> spec_parse_string(v@.skip(i as int)) is None,
{
    if i >= v.len() {
        return None;
    }
    if v[i] != '"' {
        proof {
            lemma_skip_succ(v@, i as int);
        }
        return None;
    }
    proof {
        lemma_skip_succ(v@, i as int);
    }
    parse_str_body(v, i + 1)
}

/// Continuing a digit read never lowers what it will amount to.
proof fn lemma_digits_val_acc_ge(s: Seq<char>, acc: nat)
    ensures
        digits_val_acc(s, acc) >= acc,
    decreases s.len(),
{
    if s.len() > 0 {
        lemma_digits_val_acc_ge(s.drop_first(), acc * 10 + (s[0] as u32 - 48) as nat);
    }
}

/// The end of the digit run that starts at `i`.
fn digits_end(v: &Vec<char>, i: usize) -> (j: usize)
    requires
        i <= v@.len(),
    ensures
        i <= j <= v@.len(),
        spec_digits_end(v@.skip(i as int)) == j - i,
        forall|k: int| i <= k < j ==> is_digit(v@[k]),
{
    let mut j: usize = i;
    let n = v.len();
    while j < n && is_digit_char(v[j])
        invariant
            i <= j <= n,
            n == v@.len(),
            spec_digits_end(v@.skip(i as int)) == (j - i) + spec_digits_end(v@.skip(j as int)),
            forall|k: int| i <= k < j ==> is_digit(v@[k]),
        decreases n - j,
    {
        proof {
            lemma_skip_succ(v@, j as int);
        }
        j = j + 1;
    }
    proof {
        if j < n {
            lemma_skip_succ(v@, j as int);
        }
        assert(spec_digits_end(v@.skip(j as int)) == 0);
    }
    j
}

/// Reads a severity given as a number.
fn parse_severity_number(v: &Vec<char>, i: usize) -> (r: Option<(u8, usize)>)
    requires
        i <= v@.len(),
    ensures
        r matches Some((sv, j)) ==> i < j <= v@.len() && spec_parse_severity_number(
            v@.skip(i as int),
        ) == Some((sv, v@.skip(j as int))),
        r is None ==> spec_parse_severity_number(v@.skip(i as int)) is None,
{
    let ghost s = v@.skip(i as int);
    let e = digits_end(v, i);
    let n = e - i;
    if n == 0 {
        return None;
    }
    proof {
        assert(s[0] == v@[i as int]);
    }
    if v[i] == '0' && n > 1 {
        return None;
    }
    let ghost d = s.take(n as int);
    proof {
        assert(d =~= v@.subrange(i as int, e as int));
        assert(d.skip(0) =~= d);
    }
    let mut val: u32 = 0;
    let mut k: usize = i;
    while k < e
        invariant
            i <= k <= e <= v@.len(),
            e - i == n,
            1 <= n,
            spec_digits_end(v@.skip(i as int)) == n,
            !(v@[i as int] == '0' && n > 1),
            d == v@.skip(i as int).take(n as int),
            d == v@.subrange(i as int, e as int),
            val <= 255,
            forall|m: int| i <= m < e ==> is_digit(v@[m]),
            digits_val_acc(d.skip(k - i), val as nat) == digits_val_acc(d, 0),
        decreases e - k,
    {
        let c = v[k];
        proof {
            assert(d.skip(k - i)[0] == v@[k as int]);
            assert(d.skip(k - i).drop_first() =~= d.skip(k + 1 - i));
            assert(is_digit(v@[k as int]));
        }
        let dv: u32 = c as u32 - 48;
        let val2: u32 = val * 10 + dv;
        proof {
            assert(digits_val_acc(d.skip(k - i), val as nat) == digits_val_acc(
                d.skip(k + 1 - i),
                (val * 10 + dv) as nat,
            ));
        }
        if val2 > 255 {
            proof {
                lemma_digits_val_acc_ge(d.skip(k + 1 - i), val2 as nat);
                assert(digits_val_acc(d, 0) > 255);
            }
            return None;
        }
        val = val2;
        k = k + 1;
    }
    proof {
        assert(d.skip(e - i) =~= Seq::<char>::empty());
        assert(digits_val_acc(d, 0) == val as nat);
        lemma_skip_skip(v@, i as int, e as int);
        assert(s.skip(n as int) == v@.skip(e as int));
    }
    if e < v.len() {
        proof {
            assert(v@.skip(e as int)[0] == v@[e as int]);
        }
        let c = v[e];
        if c == '.' || c == 'e' || c == 'E' {
            return None;
        }
    }
    Some((val as u8, e))
}

/// Reads a severity value: a number as it stands, a string as 0.
fn parse_severity(v: &Vec<char>, i: usize) -> (r: Option<(u8, usize)>)
    requires
        i <= v@.len(),
    ensures
        r matches Some((sv, j)) ==> i < j <= v@.len() && spec_parse_severity(v@.skip(i as int))
            == Some((sv, v@.skip(j as int))),
        r is None ==> spec_parse_severity(v@.skip(i as int)) is None,
{
    if i < v.len() && v[i] == '"' {
        proof {
            assert(v@.skip(i as int)[0] == v@[i as int]);
        }
        match parse_string(v, i) {
            None => None,
            Some((_t, j)) => Some((0u8, j)),
        }
    } else {
        proof {
            if i < v@.len() {
                assert(v@.skip(i as int)[0] == v@[i as int]);
            }
        }
        parse_severity_number(v, i)
    }
}

/// Reads past a number without keeping it.
fn skip_number(v: &Vec<char>, i: usize) -> (r: Option<usize>)
    requires
        i <= v@.len(),
    ensures
        r matches Some(j) ==> i < j <= v@.len() && spec_skip_number(v@.skip(i as int)) == Some(
            v@.skip(j as int),
        ),
        r is None ==> spec_skip_number(v@.skip(i as int)) is None,
{
    let ghost s = v@.skip(i as int);
    let it: usize = if i < v.len() && v[i] == '-' {
        proof {
            assert(s[0] == v@[i as int]);
            lemma_skip_succ(v@, i as int);
        }
        i + 1
    } else {
        proof {
            if i < v@.len() {
                assert(s[0] == v@[i as int]);
            }
        }
        i
    };
    let ghost t = v@.skip(it as int);
    let e = digits_end(v, it);
    let n = e - it;
    if n == 0 {
        return None;
    }
    proof {
        assert(t[0] == v@[it as int]);
    }
    if v[it] == '0' && n > 1 {
        return None;
    }
    proof {
        lemma_skip_skip(v@, it as int, e as int);
    }
    skip_fraction(v, e)
}

/// Reads past the optional fraction part of a skipped number.
fn skip_fraction(v: &Vec<char>, i: usize) -> (r: Option<usize>)
    requires
        i <= v@.len(),
    ensures
        r matches Some(j) ==> i <= j <= v@.len() && spec_skip_fraction(v@.skip(i as int)) == Some(
            v@.skip(j as int),
        ),
        r is None ==> spec_skip_fraction(v@.skip(i as int)) is None,
{
    let ghost s = v@.skip(i as int);
    if i < v.len() && v[i] == '.' {
        proof {
            assert(s[0] == v@[i as int]);
            lemma_skip_succ(v@, i as int);
        }
        let e = digits_end(v, i + 1);
        if e == i + 1 {
            return None;
        }
        proof {
            lemma_skip_skip(v@, i as int + 1, e as int);
        }
        skip_exponent(v, e)
    } else {
        proof {
            if i < v@.len() {
                assert(s[0] == v@[i as int]);
            }
        }
        skip_exponent(v, i)
    }
}

/// Reads past the optional exponent part of a skipped number.
fn skip_exponent(v: &Vec<char>, i: usize) -> (r: Option<usize>)
    requires
        i <= v@.len(),
    ensures
        r matches Some(j) ==> i <= j <= v@.len() && spec_skip_exponent(v@.skip(i as int)) == Some(
            v@.skip(j as int),
        ),
        r is None ==> spec_skip_exponent(v@.skip(i as int)) is None,
{
    let ghost s = v@.skip(i as int);
    if i < v.len() && (v[i] == 'e' || v[i] == 'E') {
        proof {
            assert(s[0] == v@[i as int]);
        }
        let it: usize = if i + 1 < v.len() && (v[i + 1] == '+' || v[i + 1] == '-') {
            proof {
                assert(s[1] == v@[i as int + 1]);
                lemma_skip_skip(v@, i as int, i as int + 2);
            }
            i + 2
        } else {
            proof {
                if i + 1 < v@.len() {
                    assert(s[1] == v@[i as int + 1]);
                }
                lemma_skip_succ(v@, i as int);
            }
            i + 1
        };
        let e = digits_end(v, it);
        if e == it {
            return None;
        }
        proof {
            lemma_skip_skip(v@, it as int, e as int);
        }
        Some(e)
    } else {
        proof {
            if i < v@.len() {
                assert(s[0] == v@[i as int]);
            }
        }
        Some(i)
    }
}

/// Reads past any JSON value without keeping it.
fn skip_value(v: &Vec<char>, i: usize) -> (r: Option<usize>)
    requires
        i <= v@.len(),
    ensures
        r matches Some(j) ==> i < j <= v@.len() && spec_skip_value(v@.skip(i as int)) == Some(
            v@.skip(j as int),
        ),
        r is None ==> spec_skip_value(v@.skip(i as int)) is None,
    decreases v@.len() - i, 0int,
{
    let ghost s = v@.skip(i as int);
    if i >= v.len() {
        return None;
    }
    proof {
        lemma_skip_succ(v@, i as int);
    }
    let c0 = v[i];
    if c0 == '"' {
        match parse_str_body(v, i + 1) {
            None => None,
            Some((_t, j)) => Some(j),
        }
    } else if c0 == '[' {
        skip_elems(v, i + 1, true)
    } else if c0 == '{' {
        skip_members(v, i + 1, true)
    } else if c0 == 't' {
        if v.len() - i >= 4 && v[i + 1] == 'r' && v[i + 2] == 'u' && v[i + 3] == 'e' {
            proof {
                assert(s[1] == v@[i as int + 1]);
                assert(s[2] == v@[i as int + 2]);
                assert(s[3] == v@[i as int + 3]);
                lemma_skip_skip(v@, i as int, i as int + 4);
            }
            Some(i + 4)
        } else {
            proof {
                if s.len() >= 4 {
                    assert(s[1] == v@[i as int + 1]);
                    assert(s[2] == v@[i as int + 2]);
                    assert(s[3] == v@[i as int + 3]);
                }
            }
            None
        }
    } else if c0 == 'f' {
        if v.len() - i >= 5 && v[i + 1] == 'a' && v[i + 2] == 'l' && v[i + 3] == 's' && v[i + 4]
            == 'e' {
            proof {
                assert(s[1] == v@[i as int + 1]);
                assert(s[2] == v@[i as int + 2]);
                assert(s[3] == v@[i as int + 3]);
                assert(s[4] == v@[i as int + 4]);
                lemma_skip_skip(v@, i as int, i as int + 5);
            }
            Some(i + 5)
        } else {
            proof {
                if s.len() >= 5 {
                    assert(s[1] == v@[i as int + 1]);
                    assert(s[2] == v@[i as int + 2]);
                    assert(s[3] == v@[i as int + 3]);
                    assert(s[4] == v@[i as int + 4]);
                }
            }
            None
        }
    } else if c0 == 'n' {
        if v.len() - i >= 4 && v[i + 1] == 'u' && v[i + 2] == 'l' && v[i + 3] == 'l' {
            proof {
                assert(s[1] == v@[i as int + 1]);
                assert(s[2] == v@[i as int + 2]);
                assert(s[3] == v@[i as int + 3]);
                lemma_skip_skip(v@, i as int, i as int + 4);
            }
            Some(i + 4)
        } else {
            proof {
                if s.len() >= 4 {
                    assert(s[1] == v@[i as int + 1]);
                    assert(s[2] == v@[i as int + 2]);
                    assert(s[3] == v@[i as int + 3]);
                }
            }
            None
        }
    } else {
        skip_number(v, i)
    }
}

/// Reads past the elements of a skipped array.
fn skip_elems(v: &Vec<char>, i: usize, first: bool) -> (r: Option<usize>)
    requires
        i <= v@.len(),
    ensures
        r matches Some(j) ==> i < j <= v@.len() && spec_skip_elems(v@.skip(i as int), first)
            == Some(v@.skip(j as int)),
        r is None ==> spec_skip_elems(v@.skip(i as int), first) is None,
    decreases v@.len() - i, 1int,
{
    if i >= v.len() {
        return None;
    }
    proof {
        lemma_skip_succ(v@, i as int);
    }
    let c0 = v[i];
    if is_ws_char(c0) {
        skip_elems(v, i + 1, first)
    } else if first && c0 == ']' {
        Some(i + 1)
    } else {
        match skip_value(v, i) {
            None => None,
            Some(j) => skip_arr_tail(v, j),
        }
    }
}

/// Reads what follows a skipped array element.
fn skip_arr_tail(v: &Vec<char>, i: usize) -> (r: Option<usize>)
    requires
        i <= v@.len(),
    ensures
        r matches Some(j) ==> i < j <= v@.len() && spec_skip_arr_tail(v@.skip(i as int)) == Some(
            v@.skip(j as int),
        ),
        r is None ==> spec_skip_arr_tail(v@.skip(i as int)) is None,
    decreases v@.len() - i, 1int,
{
    if i >= v.len() {
        return None;
    }
    proof {
        lemma_skip_succ(v@, i as int);
    }
    let c0 = v[i];
    if is_ws_char(c0) {
        skip_arr_tail(v, i + 1)
    } else if c0 == ']' {
        Some(i + 1)
    } else if c0 == ',' {
        skip_elems(v, i + 1, false)
    } else {
        None
    }
}

/// Reads past the members of a skipped object.
fn skip_members(v: &Vec<char>, i: usize, first: bool) -> (r: Option<usize>)
    requires
        i <= v@.len(),
    ensures
        r matches Some(j) ==> i < j <= v@.len() && spec_skip_members(v@.skip(i as int), first)
            == Some(v@.skip(j as int)),
        r is None ==> spec_skip_members(v@.skip(i as int), first) is None,
    decreases v@.len() - i, 1int,
{
    if i >= v.len() {
        return None;
    }
    proof {
        lemma_skip_succ(v@, i as int);
    }
    let c0 = v[i];
    if is_ws_char(c0) {
        skip_members(v, i + 1, first)
    } else if first && c0 == '}' {
        Some(i + 1)
    } else if c0 == '"' {
        match parse_str_body(v, i + 1) {
            None => None,
            Some((_k, j)) => skip_colon_value(v, j),
        }
    } else {
        None
    }
}

/// Reads the colon of a skipped member.
fn skip_colon_value(v: &Vec<char>, i: usize) -> (r: Option<usize>)
    requires
        i <= v@.len(),
    ensures
        r matches Some(j) ==> i < j <= v@.len() && spec_skip_colon_value(v@.skip(i as int))
            == Some(v@.skip(j as int)),
        r is None ==> spec_skip_colon_value(v@.skip(i as int)) is None,
    decreases v@.len() - i, 1int,
{
    if i >= v.len() {
        return None;
    }
    proof {
        lemma_skip_succ(v@, i as int);
    }
    let c0 = v[i];
    if is_ws_char(c0) {
        skip_colon_value(v, i + 1)
    } else if c0 == ':' {
        skip_member_value(v, i + 1)
    } else {
        None
    }
}

/// Reads the value of a skipped member.
fn skip_member_value(v: &Vec<char>, i: usize) -> (r: Option<usize>)
    requires
        i <= v@.len(),
    ensures
        r matches Some(j) ==> i < j <= v@.len() && spec_skip_member_value(v@.skip(i as int))
            == Some(v@.skip(j as int)),
        r is None ==> spec_skip_member_value(v@.skip(i as int)) is None,
    decreases v@.len() - i, 1int,
{
    if i >= v.len() {
        return None;
    }
    proof {
        lemma_skip_succ(v@, i as int);
    }
    let c0 = v[i];
    if is_ws_char(c0) {
        skip_member_value(v, i + 1)
    } else {
        match skip_value(v, i) {
            None => None,
            Some(j) => skip_obj_tail(v, j),
        }
    }
}

/// Reads what follows a skipped member.
fn skip_obj_tail(v: &Vec<char>, i: usize) -> (r: Option<usize>)
    requires
        i <= v@.len(),
    ensures
        r matches Some(j) ==> i < j <= v@.len() && spec_skip_obj_tail(v@.skip(i as int)) == Some(
            v@.skip(j as int),
        ),
        r is None ==> spec_skip_obj_tail(v@.skip(i as int)) is None,
    decreases v@.len() - i, 1int,
{
    if i >= v.len() {
        return None;
    }
    proof {
        lemma_skip_succ(v@, i as int);
    }
    let c0 = v[i];
    if is_ws_char(c0) {
        skip_obj_tail(v, i + 1)
    } else if c0 == '}' {
        Some(i + 1)
    } else if c0 == ',' {
        skip_members(v, i + 1, false)
    } else {
        None
    }
}

/// A finding object under construction while it is read.
struct PartialFinding {
    category: Option<Vec<char>>,
    finding: Option<Vec<char>>,
    severity: Option<u8>,
    impact: Option<Vec<char>>,
}

/// The mathematical value of a partial finding.
spec fn pf_view(p: &PartialFinding) -> PartialFindingView {
    PartialFindingView {
        category: match p.category {
            Some(v) => Some(v@),
            None => None,
        },
        finding: match p.finding {
            Some(v) => Some(v@),
            None => None,
        },
        severity: p.severity,
        impact: match p.impact {
            Some(v) => Some(v@),
            None => None,
        },
    }
}

/// Finishes a finding object: every member must have appeared.
fn finish_finding_exec(acc: PartialFinding, j: usize, v: &Vec<char>) -> (r: Option<
    (ValidationResult, usize),
>)
    requires
        j <= v@.len(),
    ensures
        r matches Some((vr, j2)) ==> j2 == j && finish_finding(pf_view(&acc), v@.skip(j as int))
            == Some((vr@, v@.skip(j as int))),
        r is None ==> finish_finding(pf_view(&acc), v@.skip(j as int)) is None,
{
    match (acc.category, acc.finding, acc.severity, acc.impact) {
        (Some(c), Some(f), Some(sv), Some(im)) => {
            let vr = ValidationResult {
                category: chars_to_string(&c),
                finding: chars_to_string(&f),
                severity: sv,
                impact: chars_to_string(&im),
            };
            Some((vr, j))
        },
        _ => None,
    }
}

/// Reads the members of a finding object after `{` or a comma.
fn parse_fmembers(v: &Vec<char>, i: usize, acc: PartialFinding, first: bool) -> (r: Option<
    (ValidationResult, usize),
>)
    requires
        i <= v@.len(),
    ensures
        r matches Some((vr, j)) ==> i < j <= v@.len() && spec_parse_fmembers(
            v@.skip(i as int),
            pf_view(&acc),
            first,
        ) == Some((vr@, v@.skip(j as int))),
        r is None ==> spec_parse_fmembers(v@.skip(i as int), pf_view(&acc), first) is None,
    decreases v@.len() - i,
{
    if i >= v.len() {
        return None;
    }
    proof {
        lemma_skip_succ(v@, i as int);
    }
    let c0 = v[i];
    if is_ws_char(c0) {
        parse_fmembers(v, i + 1, acc, first)
    } else if first && c0 == '}' {
        finish_finding_exec(acc, i + 1, v)
    } else if c0 == '"' {
        match parse_str_body(v, i + 1) {
            None => None,
            Some((k, j)) => parse_fcolon(v, j, acc, k),
        }
    } else {
        None
    }
}

/// Reads the colon of a finding member.
fn parse_fcolon(v: &Vec<char>, i: usize, acc: PartialFinding, k: Vec<char>) -> (r: Option<
    (ValidationResult, usize),
>)
    requires
        i <= v@.len(),
    ensures
        r matches Some((vr, j)) ==> i < j <= v@.len() && spec_parse_fcolon(
            v@.skip(i as int),
            pf_view(&acc),
            k@,
        ) == Some((vr@, v@.skip(j as int))),
        r is None ==> spec_parse_fcolon(v@.skip(i as int), pf_view(&acc), k@) is None,
    decreases v@.len() - i,
{
    if i >= v.len() {
        return None;
    }
    proof {
        lemma_skip_succ(v@, i as int);
    }
    let c0 = v[i];
    if is_ws_char(c0) {
        parse_fcolon(v, i + 1, acc, k)
    } else if c0 == ':' {
        parse_fvalue(v, i + 1, acc, k)
    } else {
        None
    }
}

/// Reads the value of a finding member and stores or skips it.
fn parse_fvalue(v: &Vec<char>, i: usize, acc: PartialFinding, k: Vec<char>) -> (r: Option<
    (ValidationResult, usize),
>)
    requires
        i <= v@.len(),
    ensures
        r matches Some((vr, j)) ==> i < j <= v@.len() && spec_parse_fvalue(
            v@.skip(i as int),
            pf_view(&acc),
            k@,
        ) == Some((vr@, v@.skip(j as int))),
        r is None ==> spec_parse_fvalue(v@.skip(i as int), pf_view(&acc), k@) is None,
    decreases v@.len() - i,
{
    if i >= v.len() {
        return None;
    }
    proof {
        lemma_skip_succ(v@, i as int);
    }
    if is_ws_char(v[i]) {
        return parse_fvalue(v, i + 1, acc, k);
    }
    if chars_eq_str(&k, "category") {
        if acc.category.is_some() {
            return None;
        }
        match parse_string(v, i) {
            None => None,
            Some((t, j)) => {
                let acc2 = PartialFinding { category: Some(t), ..acc };
                proof {
                    assert(pf_view(&acc2) =~= PartialFindingView {
                        category: Some(
                            (spec_parse_string(v@.skip(i as int))->0).0,
                        ),
                        ..pf_view(&acc)
                    });
                }
                parse_ftail(v, j, acc2)
            },
        }
    } else if chars_eq_str(&k, "finding") {
        if acc.finding.is_some() {
            return None;
        }
        match parse_string(v, i) {
            None => None,
            Some((t, j)) => {
                let acc2 = PartialFinding { finding: Some(t), ..acc };
                proof {
                    assert(pf_view(&acc2) =~= PartialFindingView {
                        finding: Some(
                            (spec_parse_string(v@.skip(i as int))->0).0,
                        ),
                        ..pf_view(&acc)
                    });
                }
                parse_ftail(v, j, acc2)
            },
        }
    } else if chars_eq_str(&k, "severity") {
        if acc.severity.is_some() {
            return None;
        }
        match parse_severity(v, i) {
            None => None,
            Some((sv, j)) => {
                let acc2 = PartialFinding { severity: Some(sv), ..acc };
                proof {
                    assert(pf_view(&acc2) =~= PartialFindingView {
                        severity: Some(sv),
                        ..pf_view(&acc)
                    });
                }
                parse_ftail(v, j, acc2)
            },
        }
    } else if chars_eq_str(&k, "impact") {
        if acc.impact.is_some() {
            return None;
        }
        match parse_string(v, i) {
            None => None,
            Some((t, j)) => {
                let acc2 = PartialFinding { impact: Some(t), ..acc };
                proof {
                    assert(pf_view(&acc2) =~= PartialFindingView {
                        impact: Some(
                            (spec_parse_string(v@.skip(i as int))->0).0,
                        ),
                        ..pf_view(&acc)
                    });
                }
                parse_ftail(v, j, acc2)
            },
        }
    } else {
        match skip_value(v, i) {
            None => None,
            Some(j) => parse_ftail(v, j, acc),
        }
    }
}

/// Reads what follows a finding member.
fn parse_ftail(v: &Vec<char>, i: usize, acc: PartialFinding) -> (r: Option<
    (ValidationResult, usize),
>)
    requires
        i <= v@.len(),
    ensures
        r matches Some((vr, j)) ==> i < j <= v@.len() && spec_parse_ftail(
            v@.skip(i as int),
            pf_view(&acc),
        ) == Some((vr@, v@.skip(j as int))),
        r is None ==> spec_parse_ftail(v@.skip(i as int), pf_view(&acc)) is None,
    decreases v@.len() - i,
{
    if i >= v.len() {
        return None;
    }
    proof {
        lemma_skip_succ(v@, i as int);
    }
    let c0 = v[i];
    if is_ws_char(c0) {
        parse_ftail(v, i + 1, acc)
    } else if c0 == '}' {
        finish_finding_exec(acc, i + 1, v)
    } else if c0 == ',' {
        parse_fmembers(v, i + 1, acc, false)
    } else {
        None
    }
}

/// Reads one finding object from its opening brace.
fn parse_finding(v: &Vec<char>, i: usize) -> (r: Option<(ValidationResult, usize)>)
    requires
        i <= v@.len(),
    ensures
        r matches Some((vr, j)) ==> i < j <= v@.len() && spec_parse_finding(v@.skip(i as int))
            == Some((vr@, v@.skip(j as int))),
        r is None ==> spec_parse_finding(v@.skip(i as int)) is None,
{
    if i >= v.len() {
        return None;
    }
    proof {
        lemma_skip_succ(v@, i as int);
    }
    if v[i] != '{' {
        return None;
    }
    let acc = PartialFinding { category: None, finding: None, severity: None, impact: None };
    proof {
        assert(pf_view(&acc) =~= empty_partial());
    }
    parse_fmembers(v, i + 1, acc, true)
}

/// Reads the elements of the findings array after `[` or a comma.
fn parse_felems(v: &Vec<char>, i: usize, acc: Vec<ValidationResult>, first: bool) -> (r: Option<
    (Vec<ValidationResult>, usize),
>)
    requires
        i <= v@.len(),
    ensures
        r matches Some((out, j)) ==> i < j <= v@.len() && spec_parse_felems(
            v@.skip(i as int),
            findings_view(acc@),
            first,
        ) == Some((findings_view(out@), v@.skip(j as int))),
        r is None ==> spec_parse_felems(v@.skip(i as int), findings_view(acc@), first) is None,
    decreases v@.len() - i,
{
    if i >= v.len() {
        return None;
    }
    proof {
        lemma_skip_succ(v@, i as int);
    }
    let c0 = v[i];
    if is_ws_char(c0) {
        parse_felems(v, i + 1, acc, first)
    } else if first && c0 == ']' {
        Some((acc, i + 1))
    } else {
        match parse_finding(v, i) {
            None => None,
            Some((f, j)) => {
                let mut acc2 = acc;
                let ghost acc_view = findings_view(acc2@);
                acc2.push(f);
                proof {
                    assert(findings_view(acc2@) =~= acc_view.push(
                        (spec_parse_finding(v@.skip(i as int))->0).0,
                    ));
                }
                parse_fl_tail(v, j, acc2)
            },
        }
    }
}

/// Reads what follows a findings array element.
fn parse_fl_tail(v: &Vec<char>, i: usize, acc: Vec<ValidationResult>) -> (r: Option<
    (Vec<ValidationResult>, usize),
>)
    requires
        i <= v@.len(),
    ensures
        r matches Some((out, j)) ==> i < j <= v@.len() && spec_parse_fl_tail(
            v@.skip(i as int),
            findings_view(acc@),
        ) == Some((findings_view(out@), v@.skip(j as int))),
        r is None ==> spec_parse_fl_tail(v@.skip(i as int), findings_view(acc@)) is None,
    decreases v@.len() - i,
{
    if i >= v.len() {
        return None;
    }
    proof {
        lemma_skip_succ(v@, i as int);
    }
    let c0 = v[i];
    if is_ws_char(c0) {
        parse_fl_tail(v, i + 1, acc)
    } else if c0 == ']' {
        Some((acc, i + 1))
    } else if c0 == ',' {
        parse_felems(v, i + 1, acc, false)
    } else {
        None
    }
}

/// Reads the findings array from its opening bracket.
fn parse_findings(v: &Vec<char>, i: usize) -> (r: Option<(Vec<ValidationResult>, usize)>)
    requires
        i <= v@.len(),
    ensures
        r matches Some((out, j)) ==> i < j <= v@.len() && spec_parse_findings(v@.skip(i as int))
            == Some((findings_view(out@), v@.skip(j as int))),
        r is None ==> spec_parse_findings(v@.skip(i as int)) is None,
{
    if i >= v.len() {
        return None;
    }
    proof {
        lemma_skip_succ(v@, i as int);
    }
    if v[i] != '[' {
        return None;
    }
    let acc: Vec<ValidationResult> = Vec::new();
    proof {
        assert(findings_view(acc@) =~= Seq::<FindingView>::empty());
    }
    parse_felems(v, i + 1, acc, true)
}

/// The mathematical value of the report accumulator.
spec fn racc_view(acc: &Option<Vec<ValidationResult>>) -> Option<Seq<FindingView>> {
    match acc {
        Some(x) => Some(findings_view(x@)),
        None => None,
    }
}

/// Finishes the report object: the `findings` member must have appeared.
fn finish_report_exec(acc: Option<Vec<ValidationResult>>, j: usize, v: &Vec<char>) -> (r: Option<
    (Vec<ValidationResult>, usize),
>)
    requires
        j <= v@.len(),
    ensures
        r matches Some((out, j2)) ==> j2 == j && finish_report(racc_view(&acc), v@.skip(j as int))
            == Some((findings_view(out@), v@.skip(j as int))),
        r is None ==> finish_report(racc_view(&acc), v@.skip(j as int)) is None,
{
    match acc {
        Some(l) => Some((l, j)),
        None => None,
    }
}

/// Reads the members of the report object after `{` or a comma.
fn parse_rmembers(v: &Vec<char>, i: usize, acc: Option<Vec<ValidationResult>>, first: bool) -> (r:
    Option<(Vec<ValidationResult>, usize)>)
    requires
        i <= v@.len(),
    ensures
        r matches Some((out, j)) ==> i < j <= v@.len() && spec_parse_rmembers(
            v@.skip(i as int),
            racc_view(&acc),
            first,
        ) == Some((findings_view(out@), v@.skip(j as int))),
        r is None ==> spec_parse_rmembers(v@.skip(i as int), racc_view(&acc), first) is None,
    decreases v@.len() - i,
{
    if i >= v.len() {
        return None;
    }
    proof {
        lemma_skip_succ(v@, i as int);
    }
    let c0 = v[i];
    if is_ws_char(c0) {
        parse_rmembers(v, i + 1, acc, first)
    } else if first && c0 == '}' {
        finish_report_exec(acc, i + 1, v)
    } else if c0 == '"' {
        match parse_str_body(v, i + 1) {
            None => None,
            Some((k, j)) => parse_rcolon(v, j, acc, k),
        }
    } else {
        None
    }
}

/// Reads the colon of a report member.
fn parse_rcolon(v: &Vec<char>, i: usize, acc: Option<Vec<ValidationResult>>, k: Vec<char>) -> (r:
    Option<(Vec<ValidationResult>, usize)>)
    requires
        i <= v@.len(),
    ensures
        r matches Some((out, j)) ==> i < j <= v@.len() && spec_parse_rcolon(
            v@.skip(i as int),
            racc_view(&acc),
            k@,
        ) == Some((findings_view(out@), v@.skip(j as int))),
        r is None ==> spec_parse_rcolon(v@.skip(i as int), racc_view(&acc), k@) is None,
    decreases v@.len() - i,
{
    if i >= v.len() {
        return None;
    }
    proof {
        lemma_skip_succ(v@, i as int);
    }
    let c0 = v[i];
    if is_ws_char(c0) {
        parse_rcolon(v, i + 1, acc, k)
    } else if c0 == ':' {
        parse_rvalue(v, i + 1, acc, k)
    } else {
        None
    }
}

/// Reads the value of a report member and stores or skips it.
fn parse_rvalue(v: &Vec<char>, i: usize, acc: Option<Vec<ValidationResult>>, k: Vec<char>) -> (r:
    Option<(Vec<ValidationResult>, usize)>)
    requires
        i <= v@.len(),
    ensures
        r matches Some((out, j)) ==> i < j <= v@.len() && spec_parse_rvalue(
            v@.skip(i as int),
            racc_view(&acc),
            k@,
        ) == Some((findings_view(out@), v@.skip(j as int))),
        r is None ==> spec_parse_rvalue(v@.skip(i as int), racc_view(&acc), k@) is None,
    decreases v@.len() - i,
{
    if i >= v.len() {
        return None;
    }
    proof {
        lemma_skip_succ(v@, i as int);
    }
    if is_ws_char(v[i]) {
        return parse_rvalue(v, i + 1, acc, k);
    }
    if chars_eq_str(&k, "findings") {
        if acc.is_some() {
            return None;
        }
        match parse_findings(v, i) {
            None => None,
            Some((l, j)) => parse_rtail(v, j, Some(l)),
        }
    } else {
        match skip_value(v, i) {
            None => None,
            Some(j) => parse_rtail(v, j, acc),
        }
    }
}

/// Reads what follows a report member.
fn parse_rtail(v: &Vec<char>, i: usize, acc: Option<Vec<ValidationResult>>) -> (r: Option<
    (Vec<ValidationResult>, usize),
>)
    requires
        i <= v@.len(),
    ensures
        r matches Some((out, j)) ==> i < j <= v@.len() && spec_parse_rtail(
            v@.skip(i as int),
            racc_view(&acc),
        ) == Some((findings_view(out@), v@.skip(j as int))),
        r is None ==> spec_parse_rtail(v@.skip(i as int), racc_view(&acc)) is None,
    decreases v@.len() - i,
{
    if i >= v.len() {
        return None;
    }
    proof {
        lemma_skip_succ(v@, i as int);
    }
    let c0 = v[i];
    if is_ws_char(c0) {
        parse_rtail(v, i + 1, acc)
    } else if c0 == '}' {
        finish_report_exec(acc, i + 1, v)
    } else if c0 == ',' {
        parse_rmembers(v, i + 1, acc, false)
    } else {
        None
    }
}

/// Reads the report object with leading whitespace allowed.
fn parse_top(v: &Vec<char>, i: usize) -> (r: Option<(Vec<ValidationResult>, usize)>)
    requires
        i <= v@.len(),
    ensures
        r matches Some((out, j)) ==> i < j <= v@.len() && spec_parse_top(v@.skip(i as int))
            == Some((findings_view(out@), v@.skip(j as int))),
        r is None ==> spec_parse_top(v@.skip(i as int)) is None,
    decreases v@.len() - i,
{
    if i < v.len() && is_ws_char(v[i]) {
        proof {
            lemma_skip_succ(v@, i as int);
        }
        return parse_top(v, i + 1);
    }
    proof {
        if i < v@.len() {
            assert(v@.skip(i as int)[0] == v@[i as int]);
        }
    }
    if i >= v.len() {
        return None;
    }
    proof {
        lemma_skip_succ(v@, i as int);
    }
    if v[i] != '{' {
        return None;
    }
    parse_rmembers(v, i + 1, None, true)
}

/// Whether everything from `i` on is whitespace.
fn ws_only_from(v: &Vec<char>, i: usize) -> (b: bool)
    requires
        i <= v@.len(),
    ensures
        b == spec_ws_only(v@.skip(i as int)),
    decreases v@.len() - i,
{
    if i >= v.len() {
        proof {
            assert(v@.skip(i as int) =~= Seq::<char>::empty());
        }
        return true;
    }
    proof {
        lemma_skip_succ(v@, i as int);
    }
    if is_ws_char(v[i]) {
        ws_only_from(v, i + 1)
    } else {
        false
    }
}

/// Parses the model's aggregation answer.  `Ok` exactly on an input
/// that the grammar accepts, carrying every finding in the order the
/// input held them; anything else is a malformed-report error.
pub fn parse_final_report(s: &str) -> (r: Result<FinalReport, ReviewError>)
    ensures
        r matches Ok(rep) ==> spec_parse_report(s@) == Some(rep@),
        r matches Err(e) ==> spec_parse_report(s@) is None && e is MalformedReportError,
{
    let v = str_to_chars(s);
    proof {
        assert(v@.skip(0) =~= v@);
    }
    match parse_top(&v, 0) {
        None => Err(
            ReviewError::MalformedReportError {
                message: String::from_str("the answer does not hold the findings JSON shape"),
            },
        ),
        Some((findings, j)) => {
            if ws_only_from(&v, j) {
                let rep = FinalReport { findings };
                proof {
                    assert(rep@ =~= findings_view(rep.findings@));
                }
                Ok(rep)
            } else {
                Err(
                    ReviewError::MalformedReportError {
                        message: String::from_str(
                            "the answer holds text after the findings JSON shape",
                        ),
                    },
                )
            }
        },
    }
}

// ------------------------------------------------------------------
// Round trip: what the writer produces, the reader accepts, and it
// reads back the very report that was written.

/// Reading one written character: the escaped form of `c` followed by
/// anything reads as `c` followed by a read of that remainder.
proof fn lemma_str_body_step(c: char, rest: Seq<char>)
    ensures
        spec_parse_str_body(esc_char(c) + rest) == match spec_parse_str_body(rest) {
            None => None::<(Seq<char>, Seq<char>)>,
            Some((t, r)) => Some((seq![c] + t, r)),
        },
{
    let s = esc_char(c) + rest;
    if c == '"' {
        assert(s[0] == '\\');
        assert(s.drop_first() =~= seq!['"'] + rest);
        assert((seq!['"'] + rest)[0] == '"');
        assert((seq!['"'] + rest).drop_first() =~= rest);
        assert(spec_parse_escape(s.drop_first()) == Some(('"', rest)));
    } else if c == '\\' {
        assert(s[0] == '\\');
        assert(s.drop_first() =~= seq!['\\'] + rest);
        assert((seq!['\\'] + rest)[0] == '\\');
        assert((seq!['\\'] + rest).drop_first() =~= rest);
        assert(spec_parse_escape(s.drop_first()) == Some(('\\', rest)));
    } else if (c as u32) < 32 {
        let u = c as u32;
        let h1 = hex_digit(u as int / 16);
        let h2 = hex_digit(u as int % 16);
        assert(s[0] == '\\');
        let s1 = s.drop_first();
        assert(s1 =~= seq!['u', '0', '0', h1, h2] + rest);
        assert(s1[0] == 'u');
        let s2 = s1.drop_first();
        assert(s2 =~= seq!['0', '0', h1, h2] + rest);
        assert(s2.len() >= 4);
        assert(s2[0] == '0' && s2[1] == '0' && s2[2] == h1 && s2[3] == h2);
        assert(hex_val('0') == Some(0int));
        assert(hex_val(h1) == Some(u as int / 16) && hex_val(h2) == Some(u as int % 16)) by {
            assert(u as int / 16 < 10 && u as int % 16 < 16);
            assert(h1 as u32 == 48 + u / 16);
            if u as int % 16 < 10 {
                assert(h2 as u32 == 48 + u % 16);
            } else {
                assert(h2 as u32 == 87 + u % 16);
            }
        }
        assert(hex4(s2) == Some(u as int));
        assert((u as int) < 0xD800);
        assert(s2.skip(4) =~= rest);
        vstd::utf8::char_u32_cast(c, u);
        assert(spec_parse_unicode_escape(s2) == Some((c, rest)));
        assert(spec_parse_escape(s1) == Some((c, rest)));
    } else {
        assert(s[0] == c);
        assert(s.drop_first() =~= rest);
        assert(s[0] != '"' && s[0] != '\\' && !((s[0] as u32) < 32));
    }
}

/// Reading back a whole written string body, up to its closing quote.
proof fn lemma_str_body_of_ser(t: Seq<char>, rest: Seq<char>)
    ensures
        spec_parse_str_body(ser_str_body(t) + (seq!['"'] + rest)) == Some((t, rest)),
    decreases t.len(),
{
    if t.len() == 0 {
        assert(ser_str_body(t) + (seq!['"'] + rest) =~= seq!['"'] + rest);
        assert((seq!['"'] + rest)[0] == '"');
        assert((seq!['"'] + rest).drop_first() =~= rest);
        assert(spec_parse_str_body(seq!['"'] + rest) == Some((Seq::<char>::empty(), rest)));
        assert(Seq::<char>::empty() =~= t);
    } else {
        lemma_str_body_of_ser(t.drop_first(), rest);
        let tail = ser_str_body(t.drop_first()) + (seq!['"'] + rest);
        assert(ser_str_body(t) + (seq!['"'] + rest) =~= esc_char(t[0]) + tail);
        lemma_str_body_step(t[0], tail);
        assert(seq![t[0]] + t.drop_first() =~= t);
    }
}

/// Reading back a whole written string, quotes included.
proof fn lemma_string_of_ser(t: Seq<char>, rest: Seq<char>)
    ensures
        spec_parse_string(ser_string(t) + rest) == Some((t, rest)),
{
    let s = ser_string(t) + rest;
    assert(s[0] == '"');
    assert(s.drop_first() =~= ser_str_body(t) + (seq!['"'] + rest));
    lemma_str_body_of_ser(t, rest);
}

/// Every character of a written number is a digit, and there is at
/// least one.
proof fn lemma_spec_dec_digits(n: nat)
    ensures
        spec_dec(n).len() >= 1,
        forall|k: int| 0 <= k < spec_dec(n).len() ==> is_digit(#[trigger] spec_dec(n)[k]),
    decreases n,
{
    if n >= 10 {
        lemma_spec_dec_digits(n / 10);
        assert forall|k: int| 0 <= k < spec_dec(n).len() implies is_digit(
            #[trigger] spec_dec(n)[k],
        ) by {
            if k < spec_dec(n / 10).len() {
                assert(spec_dec(n)[k] == spec_dec(n / 10)[k]);
            } else {
                assert(spec_dec(n)[k] == crate::text::dec_digit((n % 10) as int));
            }
        }
    }
}

/// A written number does not begin with a zero digit unless it is zero
/// itself, and then it is that single digit.
proof fn lemma_spec_dec_no_leading_zero(n: nat)
    ensures
        n > 0 ==> spec_dec(n)[0] != '0',
        n == 0 ==> spec_dec(n).len() == 1,
    decreases n,
{
    if n >= 10 {
        lemma_spec_dec_no_leading_zero(n / 10);
        lemma_spec_dec_digits(n / 10);
        assert(spec_dec(n)[0] == spec_dec(n / 10)[0]);
    } else if n > 0 {
        assert(spec_dec(n)[0] as u32 == 48 + n);
    }
}

/// The digit run at the head of a written number followed by a
/// non-digit covers exactly the written number.
proof fn lemma_digits_end_of_concat(d: Seq<char>, rest: Seq<char>)
    requires
        forall|k: int| 0 <= k < d.len() ==> is_digit(#[trigger] d[k]),
        rest.len() == 0 || !is_digit(rest[0]),
    ensures
        spec_digits_end(d + rest) == d.len(),
    decreases d.len(),
{
    if d.len() == 0 {
        assert(d + rest =~= rest);
    } else {
        assert((d + rest)[0] == d[0]);
        assert((d + rest).drop_first() =~= d.drop_first() + rest);
        lemma_digits_end_of_concat(d.drop_first(), rest);
    }
}

/// Reading digits appended one at a time agrees with reading them whole.
proof fn lemma_digits_val_acc_snoc(s: Seq<char>, c: char, acc: nat)
    ensures
        digits_val_acc(s.push(c), acc) == digits_val_acc(s, acc) * 10 + (c as u32 - 48) as nat,
    decreases s.len(),
{
    if s.len() == 0 {
        assert(s.push(c)[0] == c);
        assert(s.push(c).drop_first() =~= Seq::<char>::empty());
        reveal_with_fuel(digits_val_acc, 2);
    } else {
        assert(s.push(c)[0] == s[0]);
        assert(s.push(c).drop_first() =~= s.drop_first().push(c));
        lemma_digits_val_acc_snoc(s.drop_first(), c, acc * 10 + (s[0] as u32 - 48) as nat);
    }
}

/// A written number reads back as its value.
proof fn lemma_spec_dec_val(n: nat)
    ensures
        digits_val_acc(spec_dec(n), 0) == n,
    decreases n,
{
    reveal_with_fuel(digits_val_acc, 2);
    if n < 10 {
        assert(spec_dec(n)[0] as u32 == 48 + n);
        assert(spec_dec(n).drop_first() =~= Seq::<char>::empty());
    } else {
        lemma_spec_dec_val(n / 10);
        assert(spec_dec(n) =~= spec_dec(n / 10).push(crate::text::dec_digit((n % 10) as int)));
        lemma_digits_val_acc_snoc(spec_dec(n / 10), crate::text::dec_digit((n % 10) as int), 0);
        assert(crate::text::dec_digit((n % 10) as int) as u32 == 48 + n % 10);
    }
}

/// Reading back a written severity, with a separator after it.
proof fn lemma_severity_of_ser(sv: u8, rest: Seq<char>)
    requires
        rest.len() > 0,
        !is_digit(rest[0]),
        rest[0] != '.',
        rest[0] != 'e',
        rest[0] != 'E',
        rest[0] != '"',
    ensures
        spec_parse_severity(spec_dec(sv as nat) + rest) == Some((sv, rest)),
{
    let d = spec_dec(sv as nat);
    let s = d + rest;
    lemma_spec_dec_digits(sv as nat);
    lemma_digits_end_of_concat(d, rest);
    assert(spec_digits_end(s) == d.len());
    assert(s[0] == d[0]);
    assert(is_digit(s[0]));
    assert(s[0] != '"');
    lemma_spec_dec_no_leading_zero(sv as nat);
    assert(!(s[0] == '0' && spec_digits_end(s) > 1)) by {
        if sv == 0 {
            assert(d.len() == 1);
        }
    }
    assert(s.take(d.len() as int) =~= d);
    assert(s.skip(d.len() as int) =~= rest);
    lemma_spec_dec_val(sv as nat);
    assert(digits_val_acc(s.take(spec_digits_end(s)), 0) == sv as nat);
    assert(spec_parse_severity_number(s) == Some((sv, rest)));
}

/// How the first written member opens: brace, quoted key, colon.
proof fn lemma_lit_category()
    ensures
        "{\"category\":"@ =~= seq!['{'] + (seq!['"'] + ("category"@ + (seq!['"'] + seq![':']))),
{
    reveal_strlit("{\"category\":");
    reveal_strlit("category");
}

/// How each later written member opens: comma, quoted key, colon.
proof fn lemma_lit_finding()
    ensures
        ",\"finding\":"@ =~= seq![','] + (seq!['"'] + ("finding"@ + (seq!['"'] + seq![':']))),
{
    reveal_strlit(",\"finding\":");
    reveal_strlit("finding");
}

/// How each later written member opens: comma, quoted key, colon.
proof fn lemma_lit_severity()
    ensures
        ",\"severity\":"@ =~= seq![','] + (seq!['"'] + ("severity"@ + (seq!['"'] + seq![':']))),
{
    reveal_strlit(",\"severity\":");
    reveal_strlit("severity");
}

/// How each later written member opens: comma, quoted key, colon.
proof fn lemma_lit_impact()
    ensures
        ",\"impact\":"@ =~= seq![','] + (seq!['"'] + ("impact"@ + (seq!['"'] + seq![':']))),
{
    reveal_strlit(",\"impact\":");
    reveal_strlit("impact");
}

/// What remains of a written finding at its impact member.
spec fn rt_m4(f: FindingView, rest: Seq<char>) -> Seq<char> {
    seq!['"'] + ("impact"@ + (seq!['"'] + (seq![':'] + (ser_string(f.impact) + (seq!['}']
        + rest)))))
}

/// What remains of a written finding at its severity member.
spec fn rt_m3(f: FindingView, rest: Seq<char>) -> Seq<char> {
    seq!['"'] + ("severity"@ + (seq!['"'] + (seq![':'] + (spec_dec(f.severity as nat) + (seq![',']
        + rt_m4(f, rest))))))
}

/// What remains of a written finding at its finding member.
spec fn rt_m2(f: FindingView, rest: Seq<char>) -> Seq<char> {
    seq!['"'] + ("finding"@ + (seq!['"'] + (seq![':'] + (ser_string(f.finding) + (seq![','] + rt_m3(
        f,
        rest,
    ))))))
}

/// What remains of a written finding at its category member.
spec fn rt_m1(f: FindingView, rest: Seq<char>) -> Seq<char> {
    seq!['"'] + ("category"@ + (seq!['"'] + (seq![':'] + (ser_string(f.category) + (seq![',']
        + rt_m2(f, rest))))))
}

/// What has been gathered once the category member is read.
spec fn rt_acc1(f: FindingView) -> PartialFindingView {
    PartialFindingView { category: Some(f.category), finding: None, severity: None, impact: None }
}

/// What has been gathered once the finding member is read.
spec fn rt_acc2(f: FindingView) -> PartialFindingView {
    PartialFindingView { finding: Some(f.finding), ..rt_acc1(f) }
}

/// What has been gathered once the severity member is read.
spec fn rt_acc3(f: FindingView) -> PartialFindingView {
    PartialFindingView { severity: Some(f.severity), ..rt_acc2(f) }
}

/// What has been gathered once every member is read.
spec fn rt_acc4(f: FindingView) -> PartialFindingView {
    PartialFindingView { impact: Some(f.impact), ..rt_acc3(f) }
}

/// Reading back the written impact member and the closing brace.
proof fn lemma_rt_impact(f: FindingView, rest: Seq<char>)
    ensures
        spec_parse_fmembers(rt_m4(f, rest), rt_acc3(f), false) == Some((f, rest)),
{
    reveal_strlit("category");
    reveal_strlit("finding");
    reveal_strlit("severity");
    reveal_strlit("impact");
    assert(ser_str_body("impact"@) =~= "impact"@) by {
        reveal_strlit("impact");
        reveal_with_fuel(ser_str_body, 8);
    }
    assert("category"@[0] == 'c' && "finding"@[0] == 'f' && "severity"@[0] == 's' && "impact"@[0]
        == 'i');

    let u9 = seq!['}'] + rest;
    assert(u9[0] == '}' && !is_ws('}'));
    assert(u9.drop_first() =~= rest);
    assert(finish_finding(rt_acc4(f), rest) == Some((f, rest))) by {
        assert(FindingView {
            category: f.category,
            finding: f.finding,
            severity: f.severity,
            impact: f.impact,
        } =~= f);
    }
    assert(spec_parse_ftail(u9, rt_acc4(f)) == Some((f, rest)));

    let v_imp = ser_string(f.impact) + u9;
    assert(v_imp[0] == '"' && !is_ws('"'));
    lemma_string_of_ser(f.impact, u9);
    assert(u9.len() < v_imp.len());
    assert(PartialFindingView { impact: Some(f.impact), ..rt_acc3(f) } =~= rt_acc4(f));
    assert(spec_parse_fvalue(v_imp, rt_acc3(f), "impact"@) == Some((f, rest)));

    let c_imp = seq![':'] + v_imp;
    assert(c_imp[0] == ':' && !is_ws(':'));
    assert(c_imp.drop_first() =~= v_imp);
    assert(spec_parse_fcolon(c_imp, rt_acc3(f), "impact"@) == Some((f, rest)));

    assert(rt_m4(f, rest)[0] == '"');
    assert(rt_m4(f, rest).drop_first() =~= ser_str_body("impact"@) + (seq!['"'] + c_imp));
    lemma_str_body_of_ser("impact"@, c_imp);
    assert(spec_parse_str_body(rt_m4(f, rest).drop_first()) == Some(("impact"@, c_imp)));
    assert(c_imp.len() < rt_m4(f, rest).len());
}

/// Reading back the written severity member and what follows it.
proof fn lemma_rt_severity(f: FindingView, rest: Seq<char>)
    ensures
        spec_parse_fmembers(rt_m3(f, rest), rt_acc2(f), false) == Some((f, rest)),
{
    reveal_strlit("category");
    reveal_strlit("finding");
    reveal_strlit("severity");
    assert(ser_str_body("severity"@) =~= "severity"@) by {
        reveal_strlit("severity");
        reveal_with_fuel(ser_str_body, 10);
    }
    assert("category"@[0] == 'c' && "finding"@[0] == 'f' && "severity"@[0] == 's');

    lemma_rt_impact(f, rest);
    let t4 = seq![','] + rt_m4(f, rest);
    assert(t4[0] == ',' && !is_ws(','));
    assert(t4.drop_first() =~= rt_m4(f, rest));
    assert(spec_parse_ftail(t4, rt_acc3(f)) == Some((f, rest)));

    let v_sev = spec_dec(f.severity as nat) + t4;
    lemma_spec_dec_digits(f.severity as nat);
    assert(v_sev[0] == spec_dec(f.severity as nat)[0]);
    assert(is_digit(v_sev[0]));
    assert(!is_ws(v_sev[0]) && v_sev[0] != '"') by {
        assert(48 <= v_sev[0] as u32 <= 57);
    }
    assert(!is_digit(',') && ',' != '.' && ',' != 'e' && ',' != 'E' && ',' != '"');
    lemma_severity_of_ser(f.severity, t4);
    assert(t4.len() < v_sev.len());
    assert(PartialFindingView { severity: Some(f.severity), ..rt_acc2(f) } =~= rt_acc3(f));
    assert(spec_parse_fvalue(v_sev, rt_acc2(f), "severity"@) == Some((f, rest)));

    let c_sev = seq![':'] + v_sev;
    assert(c_sev[0] == ':' && !is_ws(':'));
    assert(c_sev.drop_first() =~= v_sev);
    assert(spec_parse_fcolon(c_sev, rt_acc2(f), "severity"@) == Some((f, rest)));

    assert(rt_m3(f, rest)[0] == '"');
    assert(rt_m3(f, rest).drop_first() =~= ser_str_body("severity"@) + (seq!['"'] + c_sev));
    lemma_str_body_of_ser("severity"@, c_sev);
    assert(spec_parse_str_body(rt_m3(f, rest).drop_first()) == Some(("severity"@, c_sev)));
    assert(c_sev.len() < rt_m3(f, rest).len());
}

/// Reading back the written finding member and what follows it.
proof fn lemma_rt_finding_member(f: FindingView, rest: Seq<char>)
    ensures
        spec_parse_fmembers(rt_m2(f, rest), rt_acc1(f), false) == Some((f, rest)),
{
    reveal_strlit("category");
    reveal_strlit("finding");
    assert(ser_str_body("finding"@) =~= "finding"@) by {
        reveal_strlit("finding");
        reveal_with_fuel(ser_str_body, 9);
    }
    assert("category"@[0] == 'c' && "finding"@[0] == 'f');

    lemma_rt_severity(f, rest);
    let t3 = seq![','] + rt_m3(f, rest);
    assert(t3[0] == ',' && !is_ws(','));
    assert(t3.drop_first() =~= rt_m3(f, rest));
    assert(spec_parse_ftail(t3, rt_acc2(f)) == Some((f, rest)));

    let v_fin = ser_string(f.finding) + t3;
    assert(v_fin[0] == '"' && !is_ws('"'));
    lemma_string_of_ser(f.finding, t3);
    assert(t3.len() < v_fin.len());
    assert(PartialFindingView { finding: Some(f.finding), ..rt_acc1(f) } =~= rt_acc2(f));
    assert(spec_parse_fvalue(v_fin, rt_acc1(f), "finding"@) == Some((f, rest)));

    let c_fin = seq![':'] + v_fin;
    assert(c_fin[0] == ':' && !is_ws(':'));
    assert(c_fin.drop_first() =~= v_fin);
    assert(spec_parse_fcolon(c_fin, rt_acc1(f), "finding"@) == Some((f, rest)));

    assert(rt_m2(f, rest)[0] == '"');
    assert(rt_m2(f, rest).drop_first() =~= ser_str_body("finding"@) + (seq!['"'] + c_fin));
    lemma_str_body_of_ser("finding"@, c_fin);
    assert(spec_parse_str_body(rt_m2(f, rest).drop_first()) == Some(("finding"@, c_fin)));
    assert(c_fin.len() < rt_m2(f, rest).len());
}

/// Reading back the written category member and what follows it.
proof fn lemma_rt_category(f: FindingView, rest: Seq<char>)
    ensures
        spec_parse_fmembers(rt_m1(f, rest), empty_partial(), true) == Some((f, rest)),
{
    reveal_strlit("category");
    assert(ser_str_body("category"@) =~= "category"@) by {
        reveal_strlit("category");
        reveal_with_fuel(ser_str_body, 10);
    }

    lemma_rt_finding_member(f, rest);
    let t2 = seq![','] + rt_m2(f, rest);
    assert(t2[0] == ',' && !is_ws(','));
    assert(t2.drop_first() =~= rt_m2(f, rest));
    assert(spec_parse_ftail(t2, rt_acc1(f)) == Some((f, rest)));

    let v_cat = ser_string(f.category) + t2;
    assert(v_cat[0] == '"' && !is_ws('"'));
    lemma_string_of_ser(f.category, t2);
    assert(t2.len() < v_cat.len());
    assert(PartialFindingView { category: Some(f.category), ..empty_partial() } =~= rt_acc1(f));
    assert(spec_parse_fvalue(v_cat, empty_partial(), "category"@) == Some((f, rest)));

    let c_cat = seq![':'] + v_cat;
    assert(c_cat[0] == ':' && !is_ws(':'));
    assert(c_cat.drop_first() =~= v_cat);
    assert(spec_parse_fcolon(c_cat, empty_partial(), "category"@) == Some((f, rest)));

    assert(rt_m1(f, rest)[0] == '"');
    assert(rt_m1(f, rest).drop_first() =~= ser_str_body("category"@) + (seq!['"'] + c_cat));
    lemma_str_body_of_ser("category"@, c_cat);
    assert(spec_parse_str_body(rt_m1(f, rest).drop_first()) == Some(("category"@, c_cat)));
    assert(c_cat.len() < rt_m1(f, rest).len());
}

/// A written finding followed by anything is one brace and then its
/// members as `rt_m1` lays them out.
#[verifier::rlimit(100)]
proof fn lemma_ser_finding_shape(f: FindingView, rest: Seq<char>)
    ensures
        (ser_finding(f) + rest).len() > 0,
        (ser_finding(f) + rest)[0] == '{',
        (ser_finding(f) + rest).drop_first() =~= rt_m1(f, rest),
{
    lemma_lit_category();
    lemma_lit_finding();
    lemma_lit_severity();
    lemma_lit_impact();
    reveal_strlit("}");
    assert((ser_finding(f) + rest)[0] == '{');
    assert((ser_finding(f) + rest).drop_first() =~= rt_m1(f, rest));
}

/// Reading back one whole written finding.
proof fn lemma_finding_of_ser(f: FindingView, rest: Seq<char>)
    ensures
        spec_parse_finding(ser_finding(f) + rest) == Some((f, rest)),
{
    lemma_ser_finding_shape(f, rest);
    lemma_rt_category(f, rest);
}

/// Reading back the written elements of a findings list, gathered onto
/// what was read before them.
#[verifier::rlimit(100)]
proof fn lemma_felems_of_ser(l: Seq<FindingView>, acc: Seq<FindingView>, rest: Seq<char>, first: bool)
    requires
        l.len() > 0,
    ensures
        spec_parse_felems(ser_findings_body(l) + (seq![']'] + rest), acc, first) == Some(
            (acc + l, rest),
        ),
    decreases l.len(),
{
    if l.len() == 1 {
        let tail = seq![']'] + rest;
        let s = ser_finding(l[0]) + tail;
        lemma_ser_finding_shape(l[0], tail);
        assert(ser_findings_body(l) + tail =~= s);
        assert(s[0] == '{' && !is_ws('{') && '{' != ']');
        lemma_finding_of_ser(l[0], tail);
        assert(tail.len() < s.len());
        assert(tail[0] == ']' && !is_ws(']'));
        assert(tail.drop_first() =~= rest);
        assert(spec_parse_fl_tail(tail, acc.push(l[0])) == Some((acc.push(l[0]), rest)));
        assert(acc.push(l[0]) =~= acc + l);
    } else {
        let body2 = ser_findings_body(l.drop_first());
        let tail = seq![','] + (body2 + (seq![']'] + rest));
        let s = ser_finding(l[0]) + tail;
        lemma_ser_finding_shape(l[0], tail);
        assert(ser_findings_body(l) + (seq![']'] + rest) =~= s);
        assert(s[0] == '{' && !is_ws('{') && '{' != ']');
        lemma_finding_of_ser(l[0], tail);
        assert(tail.len() < s.len());
        assert(tail[0] == ',' && !is_ws(','));
        assert(tail.drop_first() =~= body2 + (seq![']'] + rest));
        lemma_felems_of_ser(l.drop_first(), acc.push(l[0]), rest, false);
        assert(spec_parse_fl_tail(tail, acc.push(l[0])) == Some(
            (acc.push(l[0]) + l.drop_first(), rest),
        ));
        assert(acc.push(l[0]) + l.drop_first() =~= acc + l);
    }
}

/// Reading back a whole written findings list, brackets included.
proof fn lemma_findings_of_ser(l: Seq<FindingView>, rest: Seq<char>)
    ensures
        spec_parse_findings(seq!['['] + (ser_findings_body(l) + (seq![']'] + rest))) == Some(
            (l, rest),
        ),
{
    let s = seq!['['] + (ser_findings_body(l) + (seq![']'] + rest));
    assert(s[0] == '[');
    assert(s.drop_first() =~= ser_findings_body(l) + (seq![']'] + rest));
    if l.len() == 0 {
        let tail = seq![']'] + rest;
        assert(ser_findings_body(l) + tail =~= tail);
        assert(tail[0] == ']' && !is_ws(']'));
        assert(tail.drop_first() =~= rest);
        assert(spec_parse_felems(tail, Seq::empty(), true) == Some(
            (Seq::<FindingView>::empty(), rest),
        ));
        assert(Seq::<FindingView>::empty() =~= l);
    } else {
        lemma_felems_of_ser(l, Seq::empty(), rest, true);
        assert(Seq::<FindingView>::empty() + l =~= l);
    }
}

/// How the written report opens: brace, the findings key, colon,
/// bracket.
proof fn lemma_lit_findings()
    ensures
        "{\"findings\":["@ =~= seq!['{'] + (seq!['"'] + ("findings"@ + (seq!['"'] + (seq![':']
            + seq!['['])))),
{
    reveal_strlit("{\"findings\":[");
    reveal_strlit("findings");
}

/// Round trip: a report written to the aggregation JSON shape and read
/// back is the same list of findings, field for field.
#[verifier::rlimit(100)]
pub proof fn lemma_report_round_trip(l: Seq<FindingView>)
    ensures
        spec_parse_report(ser_report(l)) == Some(l),
{
    lemma_lit_findings();
    reveal_strlit("]}");
    assert(ser_str_body("findings"@) =~= "findings"@) by {
        reveal_strlit("findings");
        reveal_with_fuel(ser_str_body, 10);
    }

    let w = seq!['['] + (ser_findings_body(l) + (seq![']'] + seq!['}']));
    let c = seq![':'] + w;
    let m = seq!['"'] + ("findings"@ + (seq!['"'] + c));
    let s = ser_report(l);

    lemma_findings_of_ser(l, seq!['}']);
    assert(w[0] == '[' && !is_ws('['));
    assert(seq!['}'].len() < w.len());
    assert(spec_parse_rtail(seq!['}'], Some(l)) == Some((l, Seq::<char>::empty()))) by {
        assert(seq!['}'][0] == '}' && !is_ws('}'));
        assert(seq!['}'].drop_first() =~= Seq::<char>::empty());
    }
    assert(spec_parse_rvalue(w, None, "findings"@) == Some((l, Seq::<char>::empty())));
    assert(c[0] == ':' && !is_ws(':'));
    assert(c.drop_first() =~= w);
    assert(spec_parse_rcolon(c, None, "findings"@) == Some((l, Seq::<char>::empty())));
    assert(m[0] == '"');
    assert(m.drop_first() =~= ser_str_body("findings"@) + (seq!['"'] + c));
    lemma_str_body_of_ser("findings"@, c);
    assert(spec_parse_str_body(m.drop_first()) == Some(("findings"@, c)));
    assert(c.len() < m.len());
    assert(spec_parse_rmembers(m, None, true) == Some((l, Seq::<char>::empty())));

    assert(s[0] == '{' && !is_ws('{'));
    assert(s.drop_first() =~= m);
    assert(spec_parse_report_obj(s) == Some((l, Seq::<char>::empty())));
    assert(spec_parse_top(s) == Some((l, Seq::<char>::empty())));
    assert(spec_ws_only(Seq::<char>::empty()));
}

/// The report written to the aggregation JSON shape.
pub fn serialize_report(findings: &Vec<ValidationResult>) -> (r: String)
    ensures
        r@ == ser_report(findings_view(findings@)),
{
    let mut out: Vec<char> = Vec::new();
    push_str_chars("{\"findings\":[", &mut out);
    push_findings_body(findings, 0, &mut out);
    push_str_chars("]}", &mut out);
    proof {
        assert(findings_view(findings@).skip(0) =~= findings_view(findings@));
        assert(out@ =~= ser_report(findings_view(findings@)));
    }
    chars_to_string(&out)
}

} // verus!
