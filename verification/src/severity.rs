//! Severity rules: validating the configured minimum, filtering and
//! ordering findings, and the label and emoji of each severity.

use vstd::prelude::*;

use crate::models::{FinalReport, FindingView, ReviewError, ValidationResult};

verus! {

/// The mathematical value of a list of findings.
pub open spec fn findings_view(v: Seq<ValidationResult>) -> Seq<FindingView> {
    v.map_values(|f: ValidationResult| f@)
}

/// The findings of `l` with severity `s`, in their original order,
/// followed by the same for every lower severity down to `min`.
/// `sort_from(l, min, 255)` is the whole filtered list, ordered by
/// severity descending, ties keeping their original relative order.
pub open spec fn sort_from(l: Seq<FindingView>, min: u8, s: int) -> Seq<FindingView>
    decreases s + 1,
{
    if s < min {
        Seq::empty()
    } else {
        l.filter(|f: FindingView| f.severity == s) + sort_from(l, min, s - 1)
    }
}

/// The findings of `l` with severity at least `min`, ordered by severity
/// descending; equal severities keep their original relative order.
pub open spec fn spec_filter_sort(l: Seq<FindingView>, min: u8) -> Seq<FindingView> {
    sort_from(l, min, 255)
}

/// What `filter` makes of a one-element sequence.
pub proof fn lemma_filter_singleton<A>(x: A, pred: spec_fn(A) -> bool)
    ensures
        seq![x].filter(pred) == if pred(x) {
            seq![x]
        } else {
            Seq::<A>::empty()
        },
{
    reveal_with_fuel(Seq::filter, 2);
    assert(seq![x].drop_last() =~= Seq::<A>::empty());
    assert(Seq::<A>::empty().filter(pred) =~= Seq::<A>::empty());
    if pred(x) {
        assert(seq![x].filter(pred) =~= seq![x]);
    } else {
        assert(seq![x].filter(pred) =~= Seq::<A>::empty());
    }
}

/// Accepts exactly the severities 1 to 5; anything else is a
/// configuration error, raised before any network call is made.
pub fn check_min_severity(min: u8) -> (r: Result<(), ReviewError>)
    ensures
        r is Ok <==> 1 <= min <= 5,
        r matches Err(e) ==> e is ConfigurationError,
{
    if 1 <= min && min <= 5 {
        Ok(())
    } else {
        Err(ReviewError::ConfigurationError {
            message: String::from_str("Minimum severity must be 1..=5"),
        })
    }
}

/// Accepts exactly the argument sets whose minimum severity is 1 to 5.
pub fn check_local_args(args: &crate::models::Args) -> (r: Result<(), ReviewError>)
    ensures
        r is Ok <==> 1 <= args.minimum_severity <= 5,
        r matches Err(e) ==> e is ConfigurationError,
{
    check_min_severity(args.minimum_severity)
}

/// The findings of `report` with severity at least `min_severity`,
/// ordered by severity descending; equal severities keep the order in
/// which the report held them.
pub fn filter_by_severity(report: &FinalReport, min_severity: u8) -> (out: Vec<ValidationResult>)
    ensures
        findings_view(out@) == spec_filter_sort(report@, min_severity),
{
    let ghost l = report@;
    let mut out: Vec<ValidationResult> = Vec::new();
    let mut s: i32 = 255;
    while s >= min_severity as i32
        invariant
            min_severity as i32 - 1 <= s <= 255,
            l == report@,
            findings_view(out@) + sort_from(l, min_severity, s as int) == sort_from(
                l,
                min_severity,
                255,
            ),
        decreases s + 1,
    {
        let ghost prefix = findings_view(out@);
        let ghost pred = |f: FindingView| f.severity == s as int;
        let mut i: usize = 0;
        let n = report.findings.len();
        while i < n
            invariant
                i <= n,
                n == report.findings.len(),
                l == report@,
                min_severity as i32 <= s <= 255,
                pred == (|f: FindingView| f.severity == s as int),
                findings_view(out@) == prefix + l.subrange(0, i as int).filter(pred),
            decreases n - i,
        {
            let ghost out_before = out@;
            proof {
                assert(l.subrange(0, i + 1 as int) =~= l.subrange(0, i as int) + seq![l[i as int]]);
                Seq::<FindingView>::filter_distributes_over_add(
                    l.subrange(0, i as int),
                    seq![l[i as int]],
                    pred,
                );
                lemma_filter_singleton(l[i as int], pred);
                assert(l[i as int] == report.findings@[i as int]@);
            }
            if report.findings[i].severity as i32 == s {
                let f = report.findings[i].duplicate();
                out.push(f);
                proof {
                    assert(pred(l[i as int]));
                    assert(findings_view(out@) =~= findings_view(out_before) + seq![l[i as int]]);
                    assert(findings_view(out@) =~= prefix + l.subrange(0, i + 1 as int).filter(
                        pred,
                    ));
                }
            } else {
                proof {
                    assert(!pred(l[i as int]));
                    assert(findings_view(out@) =~= prefix + l.subrange(0, i + 1 as int).filter(
                        pred,
                    ));
                }
            }
            i = i + 1;
        }
        proof {
            assert(l.subrange(0, l.len() as int) =~= l);
            assert(findings_view(out@) == prefix + l.filter(pred));
            assert(sort_from(l, min_severity, s as int) == l.filter(pred) + sort_from(
                l,
                min_severity,
                s as int - 1,
            ));
            assert(prefix + (l.filter(pred) + sort_from(l, min_severity, s as int - 1)) =~= (prefix
                + l.filter(pred)) + sort_from(l, min_severity, s as int - 1));
        }
        s = s - 1;
    }
    proof {
        assert(findings_view(out@) + Seq::<FindingView>::empty() =~= findings_view(out@));
    }
    out
}

/// A sequence whose elements all satisfy the predicate is left whole by
/// `filter`.
pub proof fn lemma_filter_all<A>(q: Seq<A>, pred: spec_fn(A) -> bool)
    requires
        forall|k: int| 0 <= k < q.len() ==> pred(q[k]),
    ensures
        q.filter(pred) == q,
    decreases q.len(),
{
    reveal(Seq::filter);
    if q.len() != 0 {
        lemma_filter_all(q.drop_last(), pred);
        assert(q.drop_last().filter(pred).push(q.last()) =~= q);
    }
}

/// A sequence none of whose elements satisfies the predicate is emptied
/// by `filter`.
pub proof fn lemma_filter_none<A>(q: Seq<A>, pred: spec_fn(A) -> bool)
    requires
        forall|k: int| 0 <= k < q.len() ==> !pred(q[k]),
    ensures
        q.filter(pred) == Seq::<A>::empty(),
    decreases q.len(),
{
    reveal(Seq::filter);
    if q.len() != 0 {
        lemma_filter_none(q.drop_last(), pred);
    }
}

/// Every finding kept by `sort_from(l, min, s)` has severity between
/// `min` and `s`.
pub proof fn lemma_sort_from_bounds(l: Seq<FindingView>, min: u8, s: int)
    ensures
        forall|k: int|
            0 <= k < sort_from(l, min, s).len() ==> min <= #[trigger] sort_from(l, min, s)[k].severity
                <= s,
    decreases s + 1,
{
    if s >= min {
        let bucket = l.filter(|f: FindingView| f.severity == s);
        let rest = sort_from(l, min, s - 1);
        lemma_sort_from_bounds(l, min, s - 1);
        assert forall|k: int| 0 <= k < sort_from(l, min, s).len() implies min <= #[trigger] sort_from(
            l,
            min,
            s,
        )[k].severity <= s by {
            if k < bucket.len() {
                l.lemma_filter_pred(|f: FindingView| f.severity == s, k);
                assert(sort_from(l, min, s)[k] == bucket[k]);
            } else {
                assert(sort_from(l, min, s)[k] == rest[k - bucket.len()]);
            }
        }
    }
}

/// The filtered, ordered list never ascends in severity: an earlier
/// finding's severity is at least a later one's.
pub proof fn lemma_filter_sort_non_ascending(l: Seq<FindingView>, min: u8)
    ensures
        forall|i: int, j: int|
            0 <= i <= j < spec_filter_sort(l, min).len() ==> #[trigger] spec_filter_sort(l, min)[i].severity
                >= #[trigger] spec_filter_sort(l, min)[j].severity,
{
    lemma_sort_from_ordered(l, min, 255);
}

/// Ordering of `sort_from`: severities never ascend along the list.
pub proof fn lemma_sort_from_ordered(l: Seq<FindingView>, min: u8, s: int)
    ensures
        forall|i: int, j: int|
            0 <= i <= j < sort_from(l, min, s).len() ==> #[trigger] sort_from(l, min, s)[i].severity
                >= #[trigger] sort_from(l, min, s)[j].severity,
    decreases s + 1,
{
    if s >= min {
        let bucket = l.filter(|f: FindingView| f.severity == s);
        let rest = sort_from(l, min, s - 1);
        lemma_sort_from_ordered(l, min, s - 1);
        lemma_sort_from_bounds(l, min, s - 1);
        assert forall|i: int, j: int|
            0 <= i <= j < sort_from(l, min, s).len() implies #[trigger] sort_from(l, min, s)[i].severity
            >= #[trigger] sort_from(l, min, s)[j].severity by {
            if i < bucket.len() {
                l.lemma_filter_pred(|f: FindingView| f.severity == s, i);
                assert(sort_from(l, min, s)[i] == bucket[i]);
            } else {
                assert(sort_from(l, min, s)[i] == rest[i - bucket.len()]);
            }
            if j < bucket.len() {
                l.lemma_filter_pred(|f: FindingView| f.severity == s, j);
                assert(sort_from(l, min, s)[j] == bucket[j]);
            } else {
                assert(sort_from(l, min, s)[j] == rest[j - bucket.len()]);
            }
        }
    }
}

/// Stability: for each severity `s0`, the findings of that severity in
/// the filtered, ordered list are exactly those of the input, in the
/// input's order — kept whole when `s0` reaches the minimum, dropped
/// whole when it does not.
pub proof fn lemma_filter_sort_stable(l: Seq<FindingView>, min: u8, s0: int)
    ensures
        spec_filter_sort(l, min).filter(|f: FindingView| f.severity == s0) == if min <= s0 {
            l.filter(|f: FindingView| f.severity == s0)
        } else {
            Seq::<FindingView>::empty()
        },
{
    lemma_sort_from_filter(l, min, 255, s0);
    if min <= s0 && s0 > 255 {
        lemma_filter_none(l, |f: FindingView| f.severity == s0);
    }
}

/// Filtering `sort_from(l, min, s)` for one severity recovers the
/// corresponding bucket of `l`.
pub proof fn lemma_sort_from_filter(l: Seq<FindingView>, min: u8, s: int, s0: int)
    ensures
        sort_from(l, min, s).filter(|f: FindingView| f.severity == s0) == if min <= s0 <= s {
            l.filter(|f: FindingView| f.severity == s0)
        } else {
            Seq::<FindingView>::empty()
        },
    decreases s + 1,
{
    let pred = |f: FindingView| f.severity == s0;
    if s < min {
        assert(sort_from(l, min, s).filter(pred) =~= Seq::<FindingView>::empty());
    } else {
        let bucket = l.filter(|f: FindingView| f.severity == s);
        let rest = sort_from(l, min, s - 1);
        Seq::<FindingView>::filter_distributes_over_add(bucket, rest, pred);
        lemma_sort_from_filter(l, min, s - 1, s0);
        assert(forall|k: int|
            0 <= k < bucket.len() ==> (#[trigger] bucket[k]).severity == s) by {
            assert forall|k: int| 0 <= k < bucket.len() implies (#[trigger] bucket[k]).severity
                == s by {
                l.lemma_filter_pred(|f: FindingView| f.severity == s, k);
            }
        }
        if s0 == s {
            lemma_filter_all(bucket, pred);
            assert(bucket.filter(pred) + rest.filter(pred) =~= bucket);
        } else {
            lemma_filter_none(bucket, pred);
            assert(bucket.filter(pred) + rest.filter(pred) =~= rest.filter(pred));
        }
    }
}

/// Filtering and ordering is idempotent: applied to its own result it
/// gives that result back unchanged.
pub proof fn lemma_filter_sort_idempotent(l: Seq<FindingView>, min: u8)
    ensures
        spec_filter_sort(spec_filter_sort(l, min), min) == spec_filter_sort(l, min),
{
    lemma_sort_from_same(l, min, 255);
}

/// Rebuilding `sort_from` from the already filtered and ordered list
/// changes nothing, bucket by bucket.
pub proof fn lemma_sort_from_same(l: Seq<FindingView>, min: u8, s: int)
    requires
        s <= 255,
    ensures
        sort_from(spec_filter_sort(l, min), min, s) == sort_from(l, min, s),
    decreases s + 1,
{
    if s >= min {
        lemma_sort_from_filter(l, min, 255, s);
        lemma_sort_from_same(l, min, s - 1);
    }
}

/// Whether some finding has the critical severity.
pub fn has_critical(findings: &Vec<ValidationResult>) -> (r: bool)
    ensures
        r <==> exists|i: int| 0 <= i < findings@.len() && findings@[i].severity == 5,
{
    let mut i: usize = 0;
    let n = findings.len();
    while i < n
        invariant
            i <= n,
            n == findings@.len(),
            forall|j: int| 0 <= j < i ==> findings@[j].severity != 5,
        decreases n - i,
    {
        if findings[i].severity == 5 {
            return true;
        }
        i = i + 1;
    }
    false
}

/// The label a severity carries in the console table.  Total and
/// exhaustive: every value outside 2 to 5, the coerced 0 included,
/// falls to the suggestion label.
pub open spec fn spec_severity_label(severity: u8) -> Seq<char> {
    if severity == 5 {
        "5 (Critical) \u{26a0}\u{fe0f}"@
    } else if severity == 4 {
        "4 (Serious)"@
    } else if severity == 3 {
        "3 (Important)"@
    } else if severity == 2 {
        "2 (Minor)"@
    } else {
        "1 (Suggestion)"@
    }
}

/// The emoji a severity carries in a pull-request comment.  Total and
/// exhaustive in the same way.
pub open spec fn spec_severity_emoji(severity: u8) -> Seq<char> {
    if severity == 5 {
        "\u{1f6a8}"@
    } else if severity == 4 {
        "\u{26a0}\u{fe0f}"@
    } else if severity == 3 {
        "\u{26a1}"@
    } else if severity == 2 {
        "\u{2139}\u{fe0f}"@
    } else {
        "\u{1f4a1}"@
    }
}

/// The label of a severity in the console table.  Total: every value
/// outside 2 to 5 gets the suggestion label.
pub fn severity_label(severity: u8) -> (r: &'static str)
    ensures
        r@ == spec_severity_label(severity),
{
    match severity {
        5 => "5 (Critical) \u{26a0}\u{fe0f}",
        4 => "4 (Serious)",
        3 => "3 (Important)",
        2 => "2 (Minor)",
        _ => "1 (Suggestion)",
    }
}

/// The emoji of a severity in a pull-request comment.  Total: every value
/// outside 2 to 5 gets the suggestion emoji.
pub fn severity_emoji(severity: u8) -> (r: &'static str)
    ensures
        r@ == spec_severity_emoji(severity),
{
    match severity {
        5 => "\u{1f6a8}",
        4 => "\u{26a0}\u{fe0f}",
        3 => "\u{26a1}",
        2 => "\u{2139}\u{fe0f}",
        _ => "\u{1f4a1}",
    }
}

} // verus!
