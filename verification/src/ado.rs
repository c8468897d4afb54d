//! The source-control decisions: which changed files of an iteration
//! are reviewed, which iteration counts as the latest, how a repository
//! identifier falls back to its name, and the comment thread that is
//! posted.

use vstd::prelude::*;

use crate::models::{PullRequestFile, PullRequestFileView, Thread, ThreadComment, ThreadContext};

verus! {

/// One change entry of a pull-request iteration, reduced to the fields
/// the selection reads; a missing item leaves the path empty.
pub struct ChangeEntry {
    pub path: Option<String>,
    pub change_type: Option<String>,
    pub object_id: Option<String>,
    pub original_object_id: Option<String>,
}

/// The mathematical value of a [`ChangeEntry`].
#[verifier::ext_equal]
pub ghost struct ChangeEntryView {
    pub path: Option<Seq<char>>,
    pub change_type: Option<Seq<char>>,
    pub object_id: Option<Seq<char>>,
    pub original_object_id: Option<Seq<char>>,
}

impl View for ChangeEntry {
    type V = ChangeEntryView;

    open spec fn view(&self) -> ChangeEntryView {
        ChangeEntryView {
            path: match self.path {
                Some(s) => Some(s@),
                None => None,
            },
            change_type: match self.change_type {
                Some(s) => Some(s@),
                None => None,
            },
            object_id: match self.object_id {
                Some(s) => Some(s@),
                None => None,
            },
            original_object_id: match self.original_object_id {
                Some(s) => Some(s@),
                None => None,
            },
        }
    }
}

/// The mathematical value of a list of change entries.
pub open spec fn entries_view(v: Seq<ChangeEntry>) -> Seq<ChangeEntryView> {
    v.map_values(|e: ChangeEntry| e@)
}

/// The mathematical value of a list of pull-request files.
pub open spec fn files_view(v: Seq<PullRequestFile>) -> Seq<PullRequestFileView> {
    v.map_values(|f: PullRequestFile| f@)
}

/// Whether a path ends in the reviewed suffix.
pub open spec fn ends_with_bicep(path: Seq<char>) -> bool {
    path.len() >= 6 && path.skip(path.len() - 6) == ".bicep"@
}

/// The file an entry becomes: its path, its change type with "edit"
/// standing in for a missing one, its content identifier with the
/// empty text standing in for a missing one.
pub open spec fn spec_file_of(e: ChangeEntryView) -> PullRequestFileView {
    PullRequestFileView {
        path: e.path->0,
        change_type: match e.change_type {
            Some(ct) => ct,
            None => "edit"@,
        },
        object_id: match e.object_id {
            Some(o) => o,
            None => Seq::empty(),
        },
        original_object_id: e.original_object_id,
    }
}

/// What one entry contributes: its file when its path ends in the
/// reviewed suffix, nothing otherwise.
pub open spec fn spec_selects(e: ChangeEntryView) -> Seq<PullRequestFileView> {
    match e.path {
        Some(p) => if ends_with_bicep(p) {
            seq![spec_file_of(e)]
        } else {
            Seq::empty()
        },
        None => Seq::empty(),
    }
}

/// The files selected from a list of entries, in the entries' order.
pub open spec fn spec_select_bicep(entries: Seq<ChangeEntryView>) -> Seq<PullRequestFileView>
    decreases entries.len(),
{
    if entries.len() == 0 {
        Seq::empty()
    } else {
        spec_selects(entries[0]) + spec_select_bicep(entries.drop_first())
    }
}

/// Selecting from one more entry appends what that entry contributes.
proof fn lemma_select_snoc(s: Seq<ChangeEntryView>, e: ChangeEntryView)
    ensures
        spec_select_bicep(s.push(e)) == spec_select_bicep(s) + spec_selects(e),
    decreases s.len(),
{
    reveal_with_fuel(spec_select_bicep, 2);
    if s.len() == 0 {
        assert(s.push(e)[0] == e);
        assert(s.push(e).drop_first() =~= Seq::<ChangeEntryView>::empty());
        assert(spec_select_bicep(s.push(e)) =~= spec_select_bicep(s) + spec_selects(e));
    } else {
        assert(s.push(e)[0] == s[0]);
        assert(s.push(e).drop_first() =~= s.drop_first().push(e));
        lemma_select_snoc(s.drop_first(), e);
        assert(spec_select_bicep(s.push(e)) =~= spec_select_bicep(s) + spec_selects(e));
    }
}

/// Whether the path ends in the reviewed suffix.
fn path_ends_with_bicep(path: &str) -> (b: bool)
    ensures
        b == ends_with_bicep(path@),
{
    let v = crate::text::str_to_chars(path);
    let n = v.len();
    if n < 6 {
        return false;
    }
    proof {
        reveal_strlit(".bicep");
    }
    let b = v[n - 6] == '.' && v[n - 5] == 'b' && v[n - 4] == 'i' && v[n - 3] == 'c' && v[n - 2]
        == 'e' && v[n - 1] == 'p';
    proof {
        if b {
            assert(v@.skip(n - 6 as int) =~= ".bicep"@);
        } else {
            assert(v@.skip(n - 6 as int)[0] == v@[n - 6 as int]);
            assert(v@.skip(n - 6 as int)[1] == v@[n - 5 as int]);
            assert(v@.skip(n - 6 as int)[2] == v@[n - 4 as int]);
            assert(v@.skip(n - 6 as int)[3] == v@[n - 3 as int]);
            assert(v@.skip(n - 6 as int)[4] == v@[n - 2 as int]);
            assert(v@.skip(n - 6 as int)[5] == v@[n - 1 as int]);
        }
    }
    b
}

/// The files of the entries whose path ends in the reviewed suffix, in
/// the entries' order; any other change never reaches a review.
pub fn select_bicep_files(entries: &Vec<ChangeEntry>) -> (r: Vec<PullRequestFile>)
    ensures
        files_view(r@) == spec_select_bicep(entries_view(entries@)),
{
    let ghost l = entries_view(entries@);
    let mut r: Vec<PullRequestFile> = Vec::new();
    let n = entries.len();
    let mut i: usize = 0;
    proof {
        assert(l.take(0) =~= Seq::<ChangeEntryView>::empty());
    }
    while i < n
        invariant
            i <= n,
            n == entries@.len(),
            l == entries_view(entries@),
            files_view(r@) == spec_select_bicep(l.take(i as int)),
        decreases n - i,
    {
        let ghost r_before = r@;
        proof {
            assert(l.take(i + 1 as int) =~= l.take(i as int).push(l[i as int]));
            lemma_select_snoc(l.take(i as int), l[i as int]);
            assert(l[i as int] == entries@[i as int]@);
        }
        match &entries[i].path {
            Some(p) => {
                if path_ends_with_bicep(p.as_str()) {
                    let change_type: String = match &entries[i].change_type {
                        Some(ct) => ct.clone(),
                        None => String::from_str("edit"),
                    };
                    let object_id: String = match &entries[i].object_id {
                        Some(o) => o.clone(),
                        None => String::new(),
                    };
                    let original_object_id: Option<String> = match &entries[i].original_object_id {
                        Some(o) => Some(o.clone()),
                        None => None,
                    };
                    let f = PullRequestFile {
                        path: p.clone(),
                        change_type,
                        object_id,
                        original_object_id,
                    };
                    proof {
                        assert(f@ =~= spec_file_of(l[i as int]));
                    }
                    r.push(f);
                    proof {
                        assert(files_view(r@) =~= files_view(r_before) + seq![
                            spec_file_of(l[i as int]),
                        ]);
                        assert(files_view(r@) =~= spec_select_bicep(l.take(i + 1 as int)));
                    }
                } else {
                    proof {
                        assert(spec_selects(l[i as int]) =~= Seq::<PullRequestFileView>::empty());
                        assert(files_view(r@) =~= spec_select_bicep(l.take(i + 1 as int)));
                    }
                }
            },
            None => {
                proof {
                    assert(spec_selects(l[i as int]) =~= Seq::<PullRequestFileView>::empty());
                    assert(files_view(r@) =~= spec_select_bicep(l.take(i + 1 as int)));
                }
            },
        }
        i = i + 1;
    }
    proof {
        assert(l.take(l.len() as int) =~= l);
    }
    r
}

/// The iteration taken as the latest: the one with the greatest
/// identifier, or 1 when the list is empty.
pub fn latest_iteration_id(ids: &Vec<i32>) -> (r: i32)
    ensures
        ids@.len() == 0 ==> r == 1,
        ids@.len() > 0 ==> (exists|i: int| 0 <= i < ids@.len() && ids@[i] == r) && (forall|i: int|
            0 <= i < ids@.len() ==> ids@[i] <= r),
{
    if ids.len() == 0 {
        return 1;
    }
    let mut r: i32 = ids[0];
    let n = ids.len();
    let mut i: usize = 1;
    while i < n
        invariant
            1 <= i <= n,
            n == ids@.len(),
            exists|j: int| 0 <= j < i && ids@[j] == r,
            forall|j: int| 0 <= j < i ==> ids@[j] <= r,
        decreases n - i,
    {
        if ids[i] > r {
            r = ids[i];
        }
        i = i + 1;
    }
    r
}

/// The repository identifier, or the human-readable name when the
/// service gave none back.
pub fn repo_id_or_name(id: Option<String>, repo_name: &str) -> (r: String)
    ensures
        match id {
            Some(s) => r@ == s@,
            None => r@ == repo_name@,
        },
{
    match id {
        Some(s) => s,
        None => String::from_str(repo_name),
    }
}

/// The comment thread posted on one file: a single text comment, the
/// thread active, anchored to the file's path.
pub fn make_thread(file_path: &str, comment: &str) -> (t: Thread)
    ensures
        t.status == 1,
        t.comments@.len() == 1,
        t.comments@[0].content@ == comment@,
        t.comments@[0].comment_type == 1,
        t.thread_context.file_path@ == file_path@,
{
    let mut comments: Vec<ThreadComment> = Vec::new();
    comments.push(ThreadComment { content: String::from_str(comment), comment_type: 1 });
    Thread {
        comments,
        status: 1,
        thread_context: ThreadContext { file_path: String::from_str(file_path) },
    }
}

/// Whether a filtered report still holds anything to post: only then is
/// a comment thread opened on the file.
pub fn should_post_comment(findings: &Vec<crate::models::ValidationResult>) -> (b: bool)
    ensures
        b == (findings@.len() > 0),
{
    findings.len() > 0
}

} // verus!
