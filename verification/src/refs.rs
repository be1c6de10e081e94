//! The reference lister: branches and recent commits, each parsed out of
//! one listing invocation's text into flat reference records.

use vstd::prelude::*;

use crate::text::{find_char, first_index_from, is_prefix, spec_trim, trim};

verus! {

/// One branch or commit reference.
pub struct GitRef {
    pub name: String,
    pub ref_type: String,
    pub short_hash: Option<String>,
    pub message: Option<String>,
}

/// The references of a repository: its branches and its recent commits.
pub struct GitRefs {
    pub branches: Vec<GitRef>,
    pub recent_commits: Vec<GitRef>,
}

/// Mathematical image of one reference.
pub struct RefModel {
    pub name: Seq<char>,
    pub ref_type: Seq<char>,
    pub short_hash: Option<Seq<char>>,
    pub message: Option<Seq<char>>,
}

/// Mathematical image of a reference listing.
pub struct RefsModel {
    pub branches: Seq<RefModel>,
    pub recent_commits: Seq<RefModel>,
}

impl View for GitRef {
    type V = RefModel;

    open spec fn view(&self) -> RefModel {
        RefModel {
            name: self.name@,
            ref_type: self.ref_type@,
            short_hash: match self.short_hash {
                Some(h) => Some(h@),
                None => None,
            },
            message: match self.message {
                Some(m) => Some(m@),
                None => None,
            },
        }
    }
}

impl DeepView for GitRef {
    type V = RefModel;

    open spec fn deep_view(&self) -> RefModel {
        self.view()
    }
}

impl View for GitRefs {
    type V = RefsModel;

    open spec fn view(&self) -> RefsModel {
        RefsModel {
            branches: self.branches.deep_view(),
            recent_commits: self.recent_commits.deep_view(),
        }
    }
}

/// The pseudo-branch a remote head produces, which the listing drops.
pub open spec fn remote_head_prefix() -> Seq<char> {
    "origin/HEAD"@
}

/// A branch line is kept when its trimmed name is neither empty nor the
/// remote-head pseudo-branch.
pub open spec fn keeps_branch(l: Seq<char>) -> bool {
    spec_trim(l).len() > 0 && !is_prefix(remote_head_prefix(), spec_trim(l))
}

/// The branch record of one kept line.
pub open spec fn branch_of(l: Seq<char>) -> RefModel {
    RefModel { name: spec_trim(l), ref_type: "branch"@, short_hash: None, message: None }
}

/// The branch records of a listing's lines, in order.
pub open spec fn branches_of_lines(lines: Seq<Seq<char>>) -> Seq<RefModel>
    decreases lines.len(),
{
    if lines.len() == 0 {
        Seq::empty()
    } else {
        branches_of_lines(lines.drop_last()) + if keeps_branch(lines.last()) {
            seq![branch_of(lines.last())]
        } else {
            Seq::empty()
        }
    }
}

/// A commit line is kept when it holds the separator between short id and
/// subject.
pub open spec fn keeps_commit(l: Seq<char>) -> bool {
    first_index_from(l, '|', 0) < l.len()
}

/// The commit record of one kept line: the short id before the first
/// separator, the subject after it, and a display name joining the two.
pub open spec fn commit_of(l: Seq<char>) -> RefModel {
    let j = first_index_from(l, '|', 0);
    let id = l.subrange(0, j);
    let subject = l.subrange(j + 1, l.len() as int);
    RefModel {
        name: id + " - "@ + subject,
        ref_type: "commit"@,
        short_hash: Some(id),
        message: Some(subject),
    }
}

/// The commit records of a listing's lines, in order.
pub open spec fn commits_of_lines(lines: Seq<Seq<char>>) -> Seq<RefModel>
    decreases lines.len(),
{
    if lines.len() == 0 {
        Seq::empty()
    } else {
        commits_of_lines(lines.drop_last()) + if keeps_commit(lines.last()) {
            seq![commit_of(lines.last())]
        } else {
            Seq::empty()
        }
    }
}

/// The branch records a branch listing parses to.
pub open spec fn spec_branches(text: Seq<char>) -> Seq<RefModel> {
    branches_of_lines(crate::text::spec_lines(text))
}

/// The commit records a log listing parses to.
pub open spec fn spec_commits(text: Seq<char>) -> Seq<RefModel> {
    commits_of_lines(crate::text::spec_lines(text))
}

/// The invocation that lists all branches by short name.
pub fn branch_list_args() -> (r: Vec<String>)
    ensures
        r.deep_view() =~= seq!["branch"@, "-a"@, "--format=%(refname:short)"@],
{
    let r = vec![
        String::from_str("branch"),
        String::from_str("-a"),
        String::from_str("--format=%(refname:short)"),
    ];
    proof {
        assert(r.deep_view() =~= seq!["branch"@, "-a"@, "--format=%(refname:short)"@]);
    }
    r
}

/// The invocation that lists the twenty most recent commits as short id
/// and subject.
pub fn log_args() -> (r: Vec<String>)
    ensures
        r.deep_view() =~= seq!["log"@, "--oneline"@, "-20"@, "--pretty=format:%h|%s"@],
{
    let r = vec![
        String::from_str("log"),
        String::from_str("--oneline"),
        String::from_str("-20"),
        String::from_str("--pretty=format:%h|%s"),
    ];
    proof {
        assert(r.deep_view() =~= seq!["log"@, "--oneline"@, "-20"@, "--pretty=format:%h|%s"@]);
    }
    r
}

/// Parse a branch listing into branch records, dropping blank lines and
/// the remote-head pseudo-branch.
pub fn parse_branches(text: &str) -> (r: Vec<GitRef>)
    ensures
        r.deep_view() == spec_branches(text@),
{
    let lines = crate::text::split_lines(text);
    let ghost lv = lines.deep_view();
    let mut r: Vec<GitRef> = Vec::new();
    let mut i: usize = 0;
    proof {
        assert(lv.take(0) =~= Seq::<Seq<char>>::empty());
        assert(r.deep_view() =~= Seq::<RefModel>::empty());
    }
    while i < lines.len()
        invariant
            0 <= i <= lines@.len(),
            lv == lines.deep_view(),
            r.deep_view() == branches_of_lines(lv.take(i as int)),
        decreases lines@.len() - i,
    {
        proof {
            assert(lv.take(i as int + 1).drop_last() =~= lv.take(i as int));
            assert(lv.take(i as int + 1).last() == lv[i as int]);
        }
        let name = trim(lines[i].as_str());
        let keep = name.as_str().unicode_len() > 0 && !crate::text::has_prefix(
            name.as_str(),
            "origin/HEAD",
        );
        if keep {
            let ghost pre = r.deep_view();
            r.push(
                GitRef {
                    name,
                    ref_type: String::from_str("branch"),
                    short_hash: None,
                    message: None,
                },
            );
            proof {
                assert(r.deep_view() =~= pre.push(branch_of(lv[i as int])));
                assert(pre.push(branch_of(lv[i as int])) =~= pre + seq![branch_of(lv[i as int])]);
            }
        } else {
            proof {
                assert(branches_of_lines(lv.take(i as int + 1)) =~= r.deep_view());
            }
        }
        i = i + 1;
    }
    proof {
        assert(lv.take(lines@.len() as int) =~= lv);
    }
    r
}

/// Parse a log listing into commit records, dropping lines without the
/// separator.
pub fn parse_commits(text: &str) -> (r: Vec<GitRef>)
    ensures
        r.deep_view() == spec_commits(text@),
{
    let lines = crate::text::split_lines(text);
    let ghost lv = lines.deep_view();
    let mut r: Vec<GitRef> = Vec::new();
    let mut i: usize = 0;
    proof {
        assert(lv.take(0) =~= Seq::<Seq<char>>::empty());
        assert(r.deep_view() =~= Seq::<RefModel>::empty());
    }
    while i < lines.len()
        invariant
            0 <= i <= lines@.len(),
            lv == lines.deep_view(),
            r.deep_view() == commits_of_lines(lv.take(i as int)),
        decreases lines@.len() - i,
    {
        proof {
            assert(lv.take(i as int + 1).drop_last() =~= lv.take(i as int));
            assert(lv.take(i as int + 1).last() == lv[i as int]);
        }
        let line = &lines[i];
        match find_char(line.as_str(), '|') {
            Some(j) => {
                let n: usize = line.as_str().unicode_len();
                let id = line.as_str().substring_char(0, j).to_owned();
                let subject = line.as_str().substring_char(j + 1, n).to_owned();
                let display = id.clone().concat(" - ").concat(subject.as_str());
                let ghost pre = r.deep_view();
                r.push(
                    GitRef {
                        name: display,
                        ref_type: String::from_str("commit"),
                        short_hash: Some(id),
                        message: Some(subject),
                    },
                );
                proof {
                    assert(r.deep_view()[pre.len() as int].name =~= commit_of(lv[i as int]).name);
                    assert(r.deep_view() =~= pre.push(commit_of(lv[i as int])));
                    assert(pre.push(commit_of(lv[i as int])) =~= pre + seq![commit_of(
                        lv[i as int],
                    )]);
                }
            },
            None => {
                proof {
                    assert(commits_of_lines(lv.take(i as int + 1)) =~= r.deep_view());
                }
            },
        }
        i = i + 1;
    }
    proof {
        assert(lv.take(lines@.len() as int) =~= lv);
    }
    r
}

/// Assemble the reference listing from what the two invocations returned;
/// a failed invocation contributes nothing.
pub fn collect_refs(branch_text: Option<&String>, commit_text: Option<&String>) -> (r: GitRefs)
    ensures
        r@.branches == (match branch_text {
            Some(t) => spec_branches(t@),
            None => Seq::<RefModel>::empty(),
        }),
        r@.recent_commits == (match commit_text {
            Some(t) => spec_commits(t@),
            None => Seq::<RefModel>::empty(),
        }),
{
    let branches = match branch_text {
        Some(t) => parse_branches(t.as_str()),
        None => Vec::new(),
    };
    let recent_commits = match commit_text {
        Some(t) => parse_commits(t.as_str()),
        None => Vec::new(),
    };
    let r = GitRefs { branches, recent_commits };
    proof {
        if branch_text is None {
            assert(r@.branches =~= Seq::<RefModel>::empty());
        }
        if commit_text is None {
            assert(r@.recent_commits =~= Seq::<RefModel>::empty());
        }
    }
    r
}

} // verus!
