//! The request addresses of the three services, and the normalization
//! of the source-control organization into its base address.

use vstd::prelude::*;
use vstd::string::StringSliceAdditionalSpecFns;

use crate::text::{chars_to_string, i32_to_string, push_str_chars, spec_dec_signed, str_to_chars};

verus! {

/// Whether a byte passes percent-encoding untouched: an ASCII letter or
/// digit, or one of `-`, `.`, `_`, `~`.
pub open spec fn is_url_unreserved(b: u8) -> bool {
    (48 <= b <= 57) || (65 <= b <= 90) || (97 <= b <= 122) || b == 45 || b == 46 || b == 95 || b
        == 126
}

/// The character of one hexadecimal digit, upper case.
pub open spec fn hex_upper(d: int) -> char {
    if d < 10 {
        ((48 + d) as u8) as char
    } else {
        ((55 + d) as u8) as char
    }
}

/// The percent-encoding of a byte sequence: every byte but the
/// unreserved ones becomes `%` and two upper-case hexadecimal digits.
pub open spec fn url_encoded_bytes(bs: Seq<u8>) -> Seq<char>
    decreases bs.len(),
{
    if bs.len() == 0 {
        Seq::empty()
    } else if is_url_unreserved(bs[0]) {
        seq![bs[0] as char] + url_encoded_bytes(bs.drop_first())
    } else {
        seq!['%', hex_upper(bs[0] as int / 16), hex_upper(bs[0] as int % 16)] + url_encoded_bytes(
            bs.drop_first(),
        )
    }
}

/// Relies on `urlencoding::encode`: percent-encodes every byte of the
/// UTF-8 text except ASCII letters, digits and `-`, `.`, `_`, `~`,
/// with upper-case hexadecimal digits.
#[verifier::external_body]
pub fn url_encode(s: &str) -> (r: String)
    ensures
        r@ == url_encoded_bytes(s.spec_bytes()),
{
    urlencoding::encode(s).into_owned()
}

/// Whether the text starts with the prefix.
pub open spec fn spec_starts_with(s: Seq<char>, p: Seq<char>) -> bool {
    s.len() >= p.len() && s.take(p.len() as int) == p
}

/// A text without trailing repetitions of one character.
pub open spec fn spec_trim_char_end(s: Seq<char>, c: char) -> Seq<char>
    decreases s.len(),
{
    if s.len() > 0 && s.last() == c {
        spec_trim_char_end(s.drop_last(), c)
    } else {
        s
    }
}

/// A text without leading repetitions of one character.
pub open spec fn spec_trim_char_front(s: Seq<char>, c: char) -> Seq<char>
    decreases s.len(),
{
    if s.len() > 0 && s[0] == c {
        spec_trim_char_front(s.drop_first(), c)
    } else {
        s
    }
}

/// A text without that character at either end.
pub open spec fn spec_trim_char(s: Seq<char>, c: char) -> Seq<char> {
    spec_trim_char_end(spec_trim_char_front(s, c), c)
}

/// The base address of an organization: a text that already starts
/// with the canonical host is kept, without trailing slashes; anything
/// else is taken as a short name and put after the canonical host,
/// without slashes around it.
pub open spec fn spec_org_base_url(org: Seq<char>) -> Seq<char> {
    if spec_starts_with(org, "https://dev.azure.com"@) {
        spec_trim_char_end(org, '/')
    } else {
        "https://dev.azure.com/"@ + spec_trim_char(org, '/')
    }
}

/// Whether the characters start with the literal.
fn starts_with_str(v: &Vec<char>, p: &str) -> (b: bool)
    ensures
        b == spec_starts_with(v@, p@),
{
    let w = str_to_chars(p);
    if v.len() < w.len() {
        return false;
    }
    let n = w.len();
    let mut i: usize = 0;
    while i < n
        invariant
            i <= n,
            n == w@.len() <= v@.len(),
            w@ == p@,
            forall|k: int| 0 <= k < i ==> v@[k] == w@[k],
        decreases n - i,
    {
        if v[i] != w[i] {
            proof {
                assert(v@.take(n as int)[i as int] == v@[i as int]);
            }
            return false;
        }
        i = i + 1;
    }
    proof {
        assert(v@.take(n as int) =~= w@);
    }
    true
}

/// The characters without trailing repetitions of `c`.
fn trim_char_end(v: &Vec<char>, c: char) -> (r: Vec<char>)
    ensures
        r@ == spec_trim_char_end(v@, c),
{
    let n = v.len();
    let mut b: usize = n;
    proof {
        assert(v@.take(n as int) =~= v@);
    }
    while b > 0 && v[b - 1] == c
        invariant
            b <= n,
            n == v@.len(),
            spec_trim_char_end(v@, c) == spec_trim_char_end(v@.take(b as int), c),
        decreases b,
    {
        proof {
            assert(v@.take(b as int).last() == v@[b as int - 1]);
            assert(v@.take(b as int).drop_last() =~= v@.take(b as int - 1));
        }
        b = b - 1;
    }
    proof {
        if b > 0 {
            assert(v@.take(b as int).last() == v@[b as int - 1]);
        }
        assert(spec_trim_char_end(v@.take(b as int), c) == v@.take(b as int));
    }
    let mut r: Vec<char> = Vec::new();
    let mut k: usize = 0;
    while k < b
        invariant
            k <= b <= n,
            n == v@.len(),
            r@ == v@.subrange(0, k as int),
        decreases b - k,
    {
        r.push(v[k]);
        proof {
            assert(r@ =~= v@.subrange(0, k + 1 as int));
        }
        k = k + 1;
    }
    proof {
        assert(r@ =~= v@.take(b as int));
    }
    r
}

/// The characters without leading repetitions of `c`.
fn trim_char_front(v: &Vec<char>, c: char) -> (r: Vec<char>)
    ensures
        r@ == spec_trim_char_front(v@, c),
{
    let n = v.len();
    let mut a: usize = 0;
    proof {
        assert(v@.skip(0) =~= v@);
    }
    while a < n && v[a] == c
        invariant
            a <= n,
            n == v@.len(),
            spec_trim_char_front(v@, c) == spec_trim_char_front(v@.skip(a as int), c),
        decreases n - a,
    {
        proof {
            assert(v@.skip(a as int)[0] == v@[a as int]);
            assert(v@.skip(a as int).drop_first() =~= v@.skip(a as int + 1));
        }
        a = a + 1;
    }
    proof {
        if a < n {
            assert(v@.skip(a as int)[0] == v@[a as int]);
        }
        assert(spec_trim_char_front(v@.skip(a as int), c) == v@.skip(a as int));
    }
    let mut r: Vec<char> = Vec::new();
    let mut k: usize = a;
    while k < n
        invariant
            a <= k <= n,
            n == v@.len(),
            r@ == v@.subrange(a as int, k as int),
        decreases n - k,
    {
        r.push(v[k]);
        proof {
            assert(r@ =~= v@.subrange(a as int, k + 1 as int));
        }
        k = k + 1;
    }
    proof {
        assert(r@ =~= v@.skip(a as int));
    }
    r
}

/// The base address of the organization.
pub fn org_base_url(org: &str) -> (r: String)
    ensures
        r@ == spec_org_base_url(org@),
{
    let v = str_to_chars(org);
    if starts_with_str(&v, "https://dev.azure.com") {
        let t = trim_char_end(&v, '/');
        chars_to_string(&t)
    } else {
        let f = trim_char_front(&v, '/');
        let t = trim_char_end(&f, '/');
        let mut out: Vec<char> = Vec::new();
        push_str_chars("https://dev.azure.com/", &mut out);
        let n = t.len();
        let mut k: usize = 0;
        while k < n
            invariant
                k <= n,
                n == t@.len(),
                out@ == "https://dev.azure.com/"@ + t@.subrange(0, k as int),
            decreases n - k,
        {
            out.push(t[k]);
            proof {
                assert(out@ =~= "https://dev.azure.com/"@ + t@.subrange(0, k + 1 as int));
            }
            k = k + 1;
        }
        proof {
            assert(t@.subrange(0, t@.len() as int) =~= t@);
            assert(out@ =~= spec_org_base_url(org@));
        }
        chars_to_string(&out)
    }
}

/// The chat-completions address of the language-model service.
pub fn chat_completions_url(endpoint: &str, deployment: &str, api_version: &str) -> (r: String)
    ensures
        r@ == endpoint@ + "/openai/deployments/"@ + deployment@ + "/chat/completions?api-version="@
            + api_version@,
{
    let mut out: Vec<char> = Vec::new();
    push_str_chars(endpoint, &mut out);
    push_str_chars("/openai/deployments/", &mut out);
    push_str_chars(deployment, &mut out);
    push_str_chars("/chat/completions?api-version=", &mut out);
    push_str_chars(api_version, &mut out);
    proof {
        assert(out@ =~= endpoint@ + "/openai/deployments/"@ + deployment@
            + "/chat/completions?api-version="@ + api_version@);
    }
    chars_to_string(&out)
}

/// The keyword-search address: the category as the free-text term, the
/// two best matches.
pub fn search_url(endpoint: &str, index: &str, category: &str) -> (r: String)
    ensures
        r@ == endpoint@ + "/indexes/"@ + index@ + "/docs?api-version=2021-04-30-Preview&search="@
            + category@ + "&$top=2"@,
{
    let mut out: Vec<char> = Vec::new();
    push_str_chars(endpoint, &mut out);
    push_str_chars("/indexes/", &mut out);
    push_str_chars(index, &mut out);
    push_str_chars("/docs?api-version=2021-04-30-Preview&search=", &mut out);
    push_str_chars(category, &mut out);
    push_str_chars("&$top=2", &mut out);
    proof {
        assert(out@ =~= endpoint@ + "/indexes/"@ + index@
            + "/docs?api-version=2021-04-30-Preview&search="@ + category@ + "&$top=2"@);
    }
    chars_to_string(&out)
}

/// The address that resolves a repository name.
pub fn repository_url(org: &str, project: &str, repo_name: &str) -> (r: String)
    ensures
        r@ == spec_org_base_url(org@) + "/"@ + url_encoded_bytes(project.spec_bytes())
            + "/_apis/git/repositories/"@ + url_encoded_bytes(repo_name.spec_bytes())
            + "?api-version=7.1"@,
{
    let base = org_base_url(org);
    let proj = url_encode(project);
    let repo = url_encode(repo_name);
    let mut out: Vec<char> = Vec::new();
    push_str_chars(base.as_str(), &mut out);
    push_str_chars("/", &mut out);
    push_str_chars(proj.as_str(), &mut out);
    push_str_chars("/_apis/git/repositories/", &mut out);
    push_str_chars(repo.as_str(), &mut out);
    push_str_chars("?api-version=7.1", &mut out);
    proof {
        assert(out@ =~= spec_org_base_url(org@) + "/"@ + url_encoded_bytes(project.spec_bytes())
            + "/_apis/git/repositories/"@ + url_encoded_bytes(repo_name.spec_bytes())
            + "?api-version=7.1"@);
    }
    chars_to_string(&out)
}

/// The address that lists the iterations of a pull request.
pub fn iterations_url(org: &str, project: &str, repo_id: &str, pr_id: i32) -> (r: String)
    ensures
        r@ == spec_org_base_url(org@) + "/"@ + url_encoded_bytes(project.spec_bytes())
            + "/_apis/git/repositories/"@ + repo_id@ + "/pullRequests/"@ + spec_dec_signed(
            pr_id as int,
        ) + "/iterations?api-version=7.1"@,
{
    let base = org_base_url(org);
    let proj = url_encode(project);
    let prid = i32_to_string(pr_id);
    let mut out: Vec<char> = Vec::new();
    push_str_chars(base.as_str(), &mut out);
    push_str_chars("/", &mut out);
    push_str_chars(proj.as_str(), &mut out);
    push_str_chars("/_apis/git/repositories/", &mut out);
    push_str_chars(repo_id, &mut out);
    push_str_chars("/pullRequests/", &mut out);
    push_str_chars(prid.as_str(), &mut out);
    push_str_chars("/iterations?api-version=7.1", &mut out);
    proof {
        assert(out@ =~= spec_org_base_url(org@) + "/"@ + url_encoded_bytes(project.spec_bytes())
            + "/_apis/git/repositories/"@ + repo_id@ + "/pullRequests/"@ + spec_dec_signed(
            pr_id as int,
        ) + "/iterations?api-version=7.1"@);
    }
    chars_to_string(&out)
}

/// The address that lists the change entries of one iteration.
pub fn changes_url(org: &str, project: &str, repo_id: &str, pr_id: i32, iteration_id: i32) -> (r:
    String)
    ensures
        r@ == spec_org_base_url(org@) + "/"@ + url_encoded_bytes(project.spec_bytes())
            + "/_apis/git/repositories/"@ + repo_id@ + "/pullRequests/"@ + spec_dec_signed(
            pr_id as int,
        ) + "/iterations/"@ + spec_dec_signed(iteration_id as int) + "/changes?api-version=7.1"@,
{
    let base = org_base_url(org);
    let proj = url_encode(project);
    let prid = i32_to_string(pr_id);
    let iter = i32_to_string(iteration_id);
    let mut out: Vec<char> = Vec::new();
    push_str_chars(base.as_str(), &mut out);
    push_str_chars("/", &mut out);
    push_str_chars(proj.as_str(), &mut out);
    push_str_chars("/_apis/git/repositories/", &mut out);
    push_str_chars(repo_id, &mut out);
    push_str_chars("/pullRequests/", &mut out);
    push_str_chars(prid.as_str(), &mut out);
    push_str_chars("/iterations/", &mut out);
    push_str_chars(iter.as_str(), &mut out);
    push_str_chars("/changes?api-version=7.1", &mut out);
    proof {
        assert(out@ =~= spec_org_base_url(org@) + "/"@ + url_encoded_bytes(project.spec_bytes())
            + "/_apis/git/repositories/"@ + repo_id@ + "/pullRequests/"@ + spec_dec_signed(
            pr_id as int,
        ) + "/iterations/"@ + spec_dec_signed(iteration_id as int) + "/changes?api-version=7.1"@);
    }
    chars_to_string(&out)
}

/// The address that fetches one file's raw content.
pub fn file_content_url(org: &str, project: &str, repo_id: &str, object_id: &str, path: &str) -> (r:
    String)
    ensures
        r@ == spec_org_base_url(org@) + "/"@ + url_encoded_bytes(project.spec_bytes())
            + "/_apis/git/repositories/"@ + repo_id@ + "/items?objectId="@ + object_id@ + "&path="@
            + url_encoded_bytes(path.spec_bytes()) + "&includeContent=true&api-version=7.1"@,
{
    let base = org_base_url(org);
    let proj = url_encode(project);
    let penc = url_encode(path);
    let mut out: Vec<char> = Vec::new();
    push_str_chars(base.as_str(), &mut out);
    push_str_chars("/", &mut out);
    push_str_chars(proj.as_str(), &mut out);
    push_str_chars("/_apis/git/repositories/", &mut out);
    push_str_chars(repo_id, &mut out);
    push_str_chars("/items?objectId=", &mut out);
    push_str_chars(object_id, &mut out);
    push_str_chars("&path=", &mut out);
    push_str_chars(penc.as_str(), &mut out);
    push_str_chars("&includeContent=true&api-version=7.1", &mut out);
    proof {
        assert(out@ =~= spec_org_base_url(org@) + "/"@ + url_encoded_bytes(project.spec_bytes())
            + "/_apis/git/repositories/"@ + repo_id@ + "/items?objectId="@ + object_id@ + "&path="@
            + url_encoded_bytes(path.spec_bytes()) + "&includeContent=true&api-version=7.1"@);
    }
    chars_to_string(&out)
}

/// The address that opens a comment thread on a pull request.
pub fn threads_url(org: &str, project: &str, repo_id: &str, pr_id: i32) -> (r: String)
    ensures
        r@ == spec_org_base_url(org@) + "/"@ + url_encoded_bytes(project.spec_bytes())
            + "/_apis/git/repositories/"@ + repo_id@ + "/pullRequests/"@ + spec_dec_signed(
            pr_id as int,
        ) + "/threads?api-version=7.1"@,
{
    let base = org_base_url(org);
    let proj = url_encode(project);
    let prid = i32_to_string(pr_id);
    let mut out: Vec<char> = Vec::new();
    push_str_chars(base.as_str(), &mut out);
    push_str_chars("/", &mut out);
    push_str_chars(proj.as_str(), &mut out);
    push_str_chars("/_apis/git/repositories/", &mut out);
    push_str_chars(repo_id, &mut out);
    push_str_chars("/pullRequests/", &mut out);
    push_str_chars(prid.as_str(), &mut out);
    push_str_chars("/threads?api-version=7.1", &mut out);
    proof {
        assert(out@ =~= spec_org_base_url(org@) + "/"@ + url_encoded_bytes(project.spec_bytes())
            + "/_apis/git/repositories/"@ + repo_id@ + "/pullRequests/"@ + spec_dec_signed(
            pr_id as int,
        ) + "/threads?api-version=7.1"@);
    }
    chars_to_string(&out)
}

} // verus!
