//! The comparison resolver: deciding, from a comparison request, which diff
//! invocations are needed, how their outputs are merged, and when the
//! staged fallback applies.

use vstd::prelude::*;

use crate::hunks::{
    lemma_empty_input, lemma_filter_empty, lemma_filter_push, parse_diff_to_hunks, spec_parse,
    DiffModel, GitDiffResult, TotalStats,
};
use crate::text::{blank, dec_u32, is_blank, spec_dec, spec_lines, split_lines, str_eq};

verus! {

/// What a caller asks to compare: a source (the working-tree sentinel, the
/// staged sentinel, or a ref), a target ref, the number of context lines,
/// and whether untracked files should be included.
pub struct ComparisonRequest {
    pub source: String,
    pub target: String,
    pub context_lines: u32,
    pub include_untracked: bool,
}

/// The source sentinel that stands for the working tree.
pub open spec fn working_sentinel() -> Seq<char> {
    "working"@
}

/// The source sentinel that stands for the staged index.
pub open spec fn staged_sentinel() -> Seq<char> {
    "staged"@
}

/// The default target: the current head.
pub open spec fn head_ref() -> Seq<char> {
    "HEAD"@
}

impl ComparisonRequest {
    /// Build a request from optional inputs, filling each absent one with
    /// its default: working tree against head, three context lines, no
    /// untracked files.
    pub fn from_options(
        source: Option<String>,
        target: Option<String>,
        context_lines: Option<u32>,
        include_untracked: Option<bool>,
    ) -> (r: ComparisonRequest)
        ensures
            r.source@ == (match source {
                Some(s) => s@,
                None => working_sentinel(),
            }),
            r.target@ == (match target {
                Some(t) => t@,
                None => head_ref(),
            }),
            r.context_lines == (match context_lines {
                Some(n) => n,
                None => 3u32,
            }),
            r.include_untracked == (match include_untracked {
                Some(b) => b,
                None => false,
            }),
    {
        ComparisonRequest {
            source: match source {
                Some(s) => s,
                None => String::from_str("working"),
            },
            target: match target {
                Some(t) => t,
                None => String::from_str("HEAD"),
            },
            context_lines: match context_lines {
                Some(n) => n,
                None => 3,
            },
            include_untracked: match include_untracked {
                Some(b) => b,
                None => false,
            },
        }
    }
}

/// A comparison that could not be carried out.
pub enum DiffError {
    /// The directory is not a repository; nothing further is attempted.
    NotARepository,
    /// The underlying invocation failed; the message carries what it
    /// reported.
    InvocationFailed(String),
}

impl DiffError {
    /// The flat message reported to the caller.
    pub fn message(&self) -> (r: String)
        ensures
            self is NotARepository ==> r@ == "Not a git repository or git not found"@,
            self matches DiffError::InvocationFailed(d) ==> r@ == d@,
    {
        match self {
            DiffError::NotARepository => String::from_str("Not a git repository or git not found"),
            DiffError::InvocationFailed(d) => d.clone(),
        }
    }
}

/// The message for an invocation whose tool ran and reported failure.
pub fn invocation_failure_message(stderr: &str) -> (r: String)
    ensures
        r@ == "Git command failed: "@ + stderr@,
{
    String::from_str("Git command failed: ").concat(stderr)
}

/// The message for an invocation whose tool could not be started.
pub fn spawn_failure_message(detail: &str) -> (r: String)
    ensures
        r@ == "Failed to execute git command: "@ + detail@,
{
    String::from_str("Failed to execute git command: ").concat(detail)
}

/// Classify the outcome of the repository probe: a failed probe is the
/// fatal not-a-repository error, and nothing further may be attempted.
pub fn classify_repo_probe(probe_succeeded: bool) -> (r: Result<(), DiffError>)
    ensures
        r is Ok <==> probe_succeeded,
        !probe_succeeded ==> (r matches Err(e) && e is NotARepository),
{
    if probe_succeeded {
        Ok(())
    } else {
        Err(DiffError::NotARepository)
    }
}

/// The probe invocation that tests whether a directory is a repository.
pub fn repo_probe_args() -> (r: Vec<String>)
    ensures
        r.deep_view() =~= seq!["rev-parse"@, "--git-dir"@],
{
    let r = vec![String::from_str("rev-parse"), String::from_str("--git-dir")];
    proof {
        assert(r.deep_view() =~= seq!["rev-parse"@, "--git-dir"@]);
    }
    r
}

/// The context-width argument of a diff invocation.
pub open spec fn spec_context_arg(n: int) -> Seq<char> {
    "-U"@ + spec_dec(n)
}

/// Build the context-width argument.
pub fn context_arg(context_lines: u32) -> (r: String)
    ensures
        r@ == spec_context_arg(context_lines as int),
{
    let d = dec_u32(context_lines);
    String::from_str("-U").concat(d.as_str())
}

/// The primary diff invocation a request resolves to. The staged sentinel
/// compares the index, against the target only when one other than the
/// head was named; the working sentinel compares the working tree against
/// the target; any other source is compared ref-to-ref, with the head
/// substituted for a target equal to the source, so that asking a ref
/// against itself still yields a meaningful comparison.
pub open spec fn spec_diff_args(source: Seq<char>, target: Seq<char>, n: int) -> Seq<Seq<char>> {
    if source == staged_sentinel() {
        if target != head_ref() {
            seq!["diff"@, spec_context_arg(n), "--staged"@, target]
        } else {
            seq!["diff"@, spec_context_arg(n), "--staged"@]
        }
    } else if source == working_sentinel() {
        seq!["diff"@, spec_context_arg(n), target]
    } else {
        if source == target {
            seq!["diff"@, spec_context_arg(n), source + ".."@ + head_ref()]
        } else {
            seq!["diff"@, spec_context_arg(n), source + ".."@ + target]
        }
    }
}

/// Build the primary diff invocation of a request.
pub fn primary_diff_args(req: &ComparisonRequest) -> (r: Vec<String>)
    ensures
        r.deep_view() == spec_diff_args(req.source@, req.target@, req.context_lines as int),
{
    let ctx = context_arg(req.context_lines);
    let diff_word = String::from_str("diff");
    if str_eq(req.source.as_str(), "staged") {
        if !str_eq(req.target.as_str(), "HEAD") {
            let r = vec![diff_word, ctx, String::from_str("--staged"), req.target.clone()];
            proof {
                assert(r.deep_view() =~= spec_diff_args(
                    req.source@,
                    req.target@,
                    req.context_lines as int,
                ));
            }
            r
        } else {
            let r = vec![diff_word, ctx, String::from_str("--staged")];
            proof {
                assert(r.deep_view() =~= spec_diff_args(
                    req.source@,
                    req.target@,
                    req.context_lines as int,
                ));
            }
            r
        }
    } else if str_eq(req.source.as_str(), "working") {
        let r = vec![diff_word, ctx, req.target.clone()];
        proof {
            assert(r.deep_view() =~= spec_diff_args(
                req.source@,
                req.target@,
                req.context_lines as int,
            ));
        }
        r
    } else {
        let range = if str_eq(req.source.as_str(), req.target.as_str()) {
            req.source.clone().concat("..").concat("HEAD")
        } else {
            req.source.clone().concat("..").concat(req.target.as_str())
        };
        let r = vec![diff_word, ctx, range];
        proof {
            assert(r.deep_view() =~= spec_diff_args(
                req.source@,
                req.target@,
                req.context_lines as int,
            ));
        }
        r
    }
}

/// The invocation that lists untracked files.
pub fn untracked_list_args() -> (r: Vec<String>)
    ensures
        r.deep_view() =~= seq!["ls-files"@, "--others"@, "--exclude-standard"@],
{
    let r = vec![
        String::from_str("ls-files"),
        String::from_str("--others"),
        String::from_str("--exclude-standard"),
    ];
    proof {
        assert(r.deep_view() =~= seq!["ls-files"@, "--others"@, "--exclude-standard"@]);
    }
    r
}

/// The diff invocation that presents one untracked file as wholly added,
/// comparing the null device against it.
pub fn untracked_diff_args(context_lines: u32, null_device: &str, file: &str) -> (r: Vec<String>)
    ensures
        r.deep_view() =~= seq![
            "diff"@,
            "--no-index"@,
            spec_context_arg(context_lines as int),
            null_device@,
            file@,
        ],
{
    let r = vec![
        String::from_str("diff"),
        String::from_str("--no-index"),
        context_arg(context_lines),
        null_device.to_owned(),
        file.to_owned(),
    ];
    proof {
        assert(r.deep_view() =~= seq![
            "diff"@,
            "--no-index"@,
            spec_context_arg(context_lines as int),
            null_device@,
            file@,
        ]);
    }
    r
}

/// The staged-against-head invocation the fallback runs.
pub fn staged_fallback_args(context_lines: u32) -> (r: Vec<String>)
    ensures
        r.deep_view() =~= seq!["diff"@, spec_context_arg(context_lines as int), "--cached"@],
{
    let r = vec![String::from_str("diff"), context_arg(context_lines), String::from_str(
        "--cached",
    )];
    proof {
        assert(r.deep_view() =~= seq![
            "diff"@,
            spec_context_arg(context_lines as int),
            "--cached"@,
        ]);
    }
    r
}

/// The accumulated text after one untracked file's diff is merged in: a
/// blank piece changes nothing; any other piece is appended, behind a
/// newline boundary when text is already present.
pub open spec fn spec_merged(acc: Seq<char>, piece: Seq<char>) -> Seq<char> {
    if is_blank(piece) {
        acc
    } else if !is_blank(acc) {
        acc + "\n"@ + piece
    } else {
        acc + piece
    }
}

/// Merge one untracked file's diff text into the accumulated text.
pub fn append_untracked_piece(acc: &mut String, piece: &str)
    ensures
        final(acc)@ == spec_merged(old(acc)@, piece@),
{
    if !blank(piece) {
        if !blank(acc.as_str()) {
            acc.append("\n");
        }
        acc.append(piece);
    }
}

/// Whether the staged fallback applies: the accumulated text is blank and
/// the request was the default comparison, working tree against head.
pub open spec fn spec_wants_fallback(source: Seq<char>, target: Seq<char>, acc: Seq<char>) -> bool {
    is_blank(acc) && source == working_sentinel() && target == head_ref()
}

/// Decide whether the staged fallback should be attempted.
pub fn wants_staged_fallback(req: &ComparisonRequest, acc: &str) -> (r: bool)
    ensures
        r == spec_wants_fallback(req.source@, req.target@, acc@),
{
    blank(acc) && str_eq(req.source.as_str(), "working") && str_eq(req.target.as_str(), "HEAD")
}

/// The final result of a request, given the accumulated diff text and,
/// where the fallback applies, what the staged comparison returned: the
/// staged text is parsed when it holds anything, an empty result stands
/// where nothing does, and without the fallback the accumulated text
/// itself is parsed.
pub open spec fn spec_finish(
    source: Seq<char>,
    target: Seq<char>,
    acc: Seq<char>,
    staged: Option<Seq<char>>,
) -> DiffModel {
    if spec_wants_fallback(source, target, acc) {
        match staged {
            Some(s) => if !is_blank(s) {
                spec_parse(s)
            } else {
                spec_parse(Seq::empty())
            },
            None => spec_parse(Seq::empty()),
        }
    } else {
        spec_parse(acc)
    }
}

/// Turn the accumulated diff text, and the staged text where the fallback
/// applies, into the final result.
pub fn finish_diff(req: &ComparisonRequest, acc: &str, staged: Option<&String>) -> (r:
    GitDiffResult)
    ensures
        r@ == spec_finish(req.source@, req.target@, acc@, match staged {
            Some(s) => Some(s@),
            None => None,
        }),
{
    if wants_staged_fallback(req, acc) {
        match staged {
            Some(s) => {
                if !blank(s.as_str()) {
                    parse_diff_to_hunks(s.as_str())
                } else {
                    empty_diff_result()
                }
            },
            None => empty_diff_result(),
        }
    } else {
        parse_diff_to_hunks(acc)
    }
}

/// The result that stands for a comparison with no changes: no hunks and
/// all-zero totals.
pub fn empty_diff_result() -> (r: GitDiffResult)
    ensures
        r@ == spec_parse(Seq::<char>::empty()),
{
    let r = GitDiffResult {
        hunks: Vec::new(),
        total_stats: TotalStats { added: 0, removed: 0, files: 0 },
    };
    proof {
        lemma_empty_input(Seq::<char>::empty());
        assert(r@.hunks =~= spec_parse(Seq::<char>::empty()).hunks);
    }
    r
}

/// The untracked files named by a listing: its lines, blank ones dropped,
/// in the order the listing produced them.
pub open spec fn spec_untracked_files(listing: Seq<char>) -> Seq<Seq<char>> {
    spec_lines(listing).filter(|l: Seq<char>| !is_blank(l))
}

/// Read the untracked-file names out of a listing's text.
pub fn untracked_files_of(listing: &str) -> (r: Vec<String>)
    ensures
        r.deep_view() == spec_untracked_files(listing@),
{
    let lines = split_lines(listing);
    let ghost lv = lines.deep_view();
    let ghost p = |l: Seq<char>| !is_blank(l);
    let mut r: Vec<String> = Vec::new();
    let mut i: usize = 0;
    proof {
        assert(lv.take(0) =~= Seq::<Seq<char>>::empty());
        lemma_filter_empty(lv.take(0), p);
        assert(r.deep_view() =~= Seq::<Seq<char>>::empty());
    }
    while i < lines.len()
        invariant
            0 <= i <= lines@.len(),
            lv == lines.deep_view(),
            p == (|l: Seq<char>| !is_blank(l)),
            r.deep_view() == lv.take(i as int).filter(p),
        decreases lines@.len() - i,
    {
        proof {
            assert(lv.take(i as int + 1) =~= lv.take(i as int).push(lv[i as int]));
            lemma_filter_push(lv.take(i as int), lv[i as int], p);
        }
        if !blank(lines[i].as_str()) {
            let ghost pre = r.deep_view();
            r.push(lines[i].clone());
            proof {
                assert(r.deep_view() =~= pre.push(lv[i as int]));
            }
        }
        i = i + 1;
    }
    proof {
        assert(lv.take(lines@.len() as int) =~= lv);
    }
    r
}

} // verus!
