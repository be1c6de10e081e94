//! The hunk extraction engine: parsing unified-diff text into per-file,
//! per-hunk records with line statistics and aggregate totals.

use vstd::prelude::*;

use crate::text::{
    contains_seq, contains_sub, dec_usize, first_index_from, has_prefix, is_prefix,
    last_index_of, lemma_first_index_from, remove_first, rfind_char, spec_dec, spec_lines,
    spec_remove_first, split_lines,
};

verus! {

/// Per-hunk line statistics and advisory file metadata.
pub struct HunkStats {
    pub added: usize,
    pub removed: usize,
    pub size: u64,
    pub modified: String,
}

/// One contiguous change region of one file in a unified diff.
pub struct GitHunk {
    pub file_name: String,
    pub file_ext: String,
    pub hunk_header: String,
    pub hunk_lines: Vec<String>,
    pub hunk_id: String,
    pub stats: HunkStats,
}

/// Aggregate statistics over a whole diff result.
pub struct TotalStats {
    pub added: usize,
    pub removed: usize,
    pub files: usize,
}

/// All hunks extracted from one diff text, with their totals.
pub struct GitDiffResult {
    pub hunks: Vec<GitHunk>,
    pub total_stats: TotalStats,
}

/// Mathematical image of one hunk.
pub struct HunkModel {
    pub file_name: Seq<char>,
    pub file_ext: Seq<char>,
    pub hunk_header: Seq<char>,
    pub hunk_lines: Seq<Seq<char>>,
    pub hunk_id: Seq<char>,
    pub added: int,
    pub removed: int,
    pub size: int,
    pub modified: Seq<char>,
}

/// Mathematical image of the totals.
pub struct TotalModel {
    pub added: int,
    pub removed: int,
    pub files: int,
}

/// Mathematical image of a diff result.
pub struct DiffModel {
    pub hunks: Seq<HunkModel>,
    pub total: TotalModel,
}

impl View for GitHunk {
    type V = HunkModel;

    open spec fn view(&self) -> HunkModel {
        HunkModel {
            file_name: self.file_name@,
            file_ext: self.file_ext@,
            hunk_header: self.hunk_header@,
            hunk_lines: self.hunk_lines.deep_view(),
            hunk_id: self.hunk_id@,
            added: self.stats.added as int,
            removed: self.stats.removed as int,
            size: self.stats.size as int,
            modified: self.stats.modified@,
        }
    }
}

impl DeepView for GitHunk {
    type V = HunkModel;

    open spec fn deep_view(&self) -> HunkModel {
        self.view()
    }
}

impl View for TotalStats {
    type V = TotalModel;

    open spec fn view(&self) -> TotalModel {
        TotalModel {
            added: self.added as int,
            removed: self.removed as int,
            files: self.files as int,
        }
    }
}

impl View for GitDiffResult {
    type V = DiffModel;

    open spec fn view(&self) -> DiffModel {
        DiffModel { hunks: self.hunks.deep_view(), total: self.total_stats@ }
    }
}

/// The line prefix that opens a new file segment.
pub open spec fn file_marker() -> Seq<char> {
    "diff --git"@
}

/// The line prefix that opens a hunk.
pub open spec fn hunk_marker() -> Seq<char> {
    "@@"@
}

/// The prefix of the notice a diff emits for a file without a final newline.
pub open spec fn no_newline_marker() -> Seq<char> {
    "\\ No newline at end of file"@
}

pub open spec fn is_file_marker_line(l: Seq<char>) -> bool {
    is_prefix(file_marker(), l)
}

pub open spec fn is_hunk_start(l: Seq<char>) -> bool {
    is_prefix(hunk_marker(), l)
}

pub open spec fn is_no_newline_line(l: Seq<char>) -> bool {
    is_prefix(no_newline_marker(), l)
}

/// Index of the first file-marker line at or after `i`; `lines.len()` when
/// there is none.
pub open spec fn seg_end(lines: Seq<Seq<char>>, i: int) -> int
    decreases lines.len() - i when 0 <= i
{
    if i >= lines.len() {
        lines.len() as int
    } else if is_file_marker_line(lines[i]) {
        i
    } else {
        seg_end(lines, i + 1)
    }
}

pub proof fn lemma_seg_end(lines: Seq<Seq<char>>, i: int)
    requires
        0 <= i,
    ensures
        seg_end(lines, i) <= lines.len(),
        i <= lines.len() ==> i <= seg_end(lines, i),
        forall|k: int| i <= k < seg_end(lines, i) ==> !is_file_marker_line(lines[k]),
        seg_end(lines, i) < lines.len() ==> is_file_marker_line(lines[seg_end(lines, i)]),
    decreases lines.len() - i + 1,
{
    if i < lines.len() && !is_file_marker_line(lines[i]) {
        lemma_seg_end(lines, i + 1);
    }
}

/// The file segments of a line sequence, starting at marker index `i`
/// (which must point at a marker line or past the end): each segment is the
/// remainder of its marker line followed by the lines up to the next marker.
pub open spec fn segments_from(lines: Seq<Seq<char>>, i: int) -> Seq<Seq<Seq<char>>>
    decreases lines.len() - i when 0 <= i
{
    if i >= lines.len() {
        Seq::empty()
    } else {
        let e0 = seg_end(lines, i + 1);
        // seg_end always lands in this range; restating the bound makes the
        // recursion visibly decreasing.
        let e = if i + 1 <= e0 <= lines.len() {
            e0
        } else {
            lines.len() as int
        };
        seq![seq![lines[i].skip(10)] + lines.subrange(i + 1, e)] + segments_from(lines, e)
    }
}

/// The file segments of a diff's lines: everything before the first marker
/// line is discarded.
pub open spec fn spec_segments(lines: Seq<Seq<char>>) -> Seq<Seq<Seq<char>>> {
    segments_from(lines, seg_end(lines, 0))
}

/// Index of the first hunk-start line of `seg` at or after `i`; `seg.len()`
/// when there is none.
pub open spec fn body_end(seg: Seq<Seq<char>>, i: int) -> int
    decreases seg.len() - i when 0 <= i
{
    if i >= seg.len() {
        seg.len() as int
    } else if is_hunk_start(seg[i]) {
        i
    } else {
        body_end(seg, i + 1)
    }
}

pub proof fn lemma_body_end(seg: Seq<Seq<char>>, i: int)
    requires
        0 <= i,
    ensures
        body_end(seg, i) <= seg.len(),
        i <= seg.len() ==> i <= body_end(seg, i),
        forall|k: int| i <= k < body_end(seg, i) ==> !is_hunk_start(seg[k]),
        body_end(seg, i) < seg.len() ==> is_hunk_start(seg[body_end(seg, i)]),
    decreases seg.len() - i + 1,
{
    if i < seg.len() && !is_hunk_start(seg[i]) {
        lemma_body_end(seg, i + 1);
    }
}

/// The body lines of a hunk spanning `[i, e)` of `seg`: every line except
/// the missing-final-newline notices.
pub open spec fn spec_body(seg: Seq<Seq<char>>, i: int, e: int) -> Seq<Seq<char>> {
    seg.subrange(i, e).filter(|l: Seq<char>| !is_no_newline_line(l))
}

/// The header span of a hunk-start line: everything up to and including the
/// second hunk-marker token, or the whole line when no second token follows.
pub open spec fn spec_header(l: Seq<char>) -> Seq<char> {
    let j = first_index_from(l, '@', 2);
    if j + 1 < l.len() && l[j + 1] == '@' {
        l.subrange(0, j + 2)
    } else {
        l
    }
}

/// The hunks of a segment from position `i` on, each as its header together
/// with its body lines, in order of appearance.
pub open spec fn scan_hunks(seg: Seq<Seq<char>>, i: int) -> Seq<(Seq<char>, Seq<Seq<char>>)>
    decreases seg.len() - i when 0 <= i
{
    if i >= seg.len() {
        Seq::empty()
    } else if is_hunk_start(seg[i]) {
        let e0 = body_end(seg, i + 1);
        // body_end always lands in this range; restating the bound makes the
        // recursion visibly decreasing.
        let e = if i + 1 <= e0 <= seg.len() {
            e0
        } else {
            seg.len() as int
        };
        seq![(spec_header(seg[i]), spec_body(seg, i + 1, e))] + scan_hunks(seg, e)
    } else {
        scan_hunks(seg, i + 1)
    }
}

/// A line whose first character is `c`.
pub open spec fn starts_with_char(l: Seq<char>, c: char) -> bool {
    l.len() > 0 && l[0] == c
}

/// How many lines of `body` start with `c`.
pub open spec fn count_starting(body: Seq<Seq<char>>, c: char) -> int
    decreases body.len(),
{
    if body.len() == 0 {
        0
    } else {
        count_starting(body.drop_last(), c) + if starts_with_char(body.last(), c) {
            1int
        } else {
            0int
        }
    }
}

pub proof fn lemma_count_starting_bound(body: Seq<Seq<char>>, c: char)
    ensures
        0 <= count_starting(body, c) <= body.len(),
    decreases body.len(),
{
    if body.len() > 0 {
        lemma_count_starting_bound(body.drop_last(), c);
    }
}

/// The path marker of the new side of a file segment.
pub open spec fn plus_marker() -> Seq<char> {
    "+++ "@
}

/// The path marker of the old side of a file segment.
pub open spec fn minus_marker() -> Seq<char> {
    "--- "@
}

/// The null-device sentinel that marks an absent file side.
pub open spec fn devnull() -> Seq<char> {
    "/dev/null"@
}

/// The conventional marker-and-prefix span stripped from a new-side path.
pub open spec fn plus_prefix() -> Seq<char> {
    "+++ b/"@
}

/// The conventional marker-and-prefix span stripped from an old-side path.
pub open spec fn minus_prefix() -> Seq<char> {
    "--- a/"@
}

/// A new-side path line that names a real file.
pub open spec fn qualifies_plus(l: Seq<char>) -> bool {
    is_prefix(plus_marker(), l) && !contains_seq(l, devnull())
}

/// An old-side path line that names a real file.
pub open spec fn qualifies_minus(l: Seq<char>) -> bool {
    is_prefix(minus_marker(), l) && !contains_seq(l, devnull())
}

/// Index of the first line of `seg` at or after `i` that satisfies `p`;
/// `seg.len()` when there is none.
pub open spec fn first_where(seg: Seq<Seq<char>>, p: spec_fn(Seq<char>) -> bool, i: int) -> int
    decreases seg.len() - i when 0 <= i
{
    if i >= seg.len() {
        seg.len() as int
    } else if p(seg[i]) {
        i
    } else {
        first_where(seg, p, i + 1)
    }
}

pub proof fn lemma_first_where(seg: Seq<Seq<char>>, p: spec_fn(Seq<char>) -> bool, i: int)
    requires
        0 <= i,
    ensures
        first_where(seg, p, i) <= seg.len(),
        i <= seg.len() ==> i <= first_where(seg, p, i),
        forall|k: int| i <= k < first_where(seg, p, i) ==> !p(seg[k]),
        first_where(seg, p, i) < seg.len() ==> p(seg[first_where(seg, p, i)]),
    decreases seg.len() - i + 1,
{
    if i < seg.len() && !p(seg[i]) {
        lemma_first_where(seg, p, i + 1);
    }
}

/// The placeholder name of a segment whose two path lines both point at the
/// null device.
pub open spec fn unknown_name() -> Seq<char> {
    "Unknown file"@
}

/// The placeholder timestamp of a file whose metadata is unavailable.
pub open spec fn unknown_stamp() -> Seq<char> {
    "unknown"@
}

/// The file name of a segment: the first qualifying new-side path line,
/// else the first qualifying old-side one, else a placeholder; in either
/// real case with the conventional prefix removed.
pub open spec fn spec_file_name(seg: Seq<Seq<char>>) -> Seq<char> {
    let jp = first_where(seg, |l: Seq<char>| qualifies_plus(l), 0);
    let jm = first_where(seg, |l: Seq<char>| qualifies_minus(l), 0);
    if jp < seg.len() {
        spec_remove_first(seg[jp], plus_prefix())
    } else if jm < seg.len() {
        spec_remove_first(seg[jm], minus_prefix())
    } else {
        unknown_name()
    }
}

/// The extension of a file name: what follows the last dot of the part
/// after the last slash, provided that dot is not its first character.
pub open spec fn spec_ext(name: Seq<char>) -> Seq<char> {
    let fname = name.subrange(last_index_of(name, '/') + 1, name.len() as int);
    let d = last_index_of(fname, '.');
    if d >= 1 {
        fname.subrange(d + 1, fname.len() as int)
    } else {
        Seq::empty()
    }
}

/// The hunk record built from the `k`-th header/body pair of a file.
pub open spec fn hunk_model_at(
    name: Seq<char>,
    ext: Seq<char>,
    k: int,
    p: (Seq<char>, Seq<Seq<char>>),
) -> HunkModel {
    HunkModel {
        file_name: name,
        file_ext: ext,
        hunk_header: p.0,
        hunk_lines: p.1,
        hunk_id: name + "-"@ + spec_dec(k),
        added: count_starting(p.1, '+'),
        removed: count_starting(p.1, '-'),
        size: 0,
        modified: unknown_stamp(),
    }
}

/// The hunk records built from header/body pairs, numbered from `k0` on.
pub open spec fn models_of_pairs(
    ps: Seq<(Seq<char>, Seq<Seq<char>>)>,
    name: Seq<char>,
    ext: Seq<char>,
    k0: int,
) -> Seq<HunkModel>
    decreases ps.len(),
{
    if ps.len() == 0 {
        Seq::empty()
    } else {
        seq![hunk_model_at(name, ext, k0, ps[0])] + models_of_pairs(
            ps.drop_first(),
            name,
            ext,
            k0 + 1,
        )
    }
}

pub proof fn lemma_models_of_pairs(
    ps: Seq<(Seq<char>, Seq<Seq<char>>)>,
    name: Seq<char>,
    ext: Seq<char>,
    k0: int,
)
    ensures
        models_of_pairs(ps, name, ext, k0).len() == ps.len(),
        forall|t: int|
            0 <= t < ps.len() ==> models_of_pairs(ps, name, ext, k0)[t] == hunk_model_at(
                name,
                ext,
                k0 + t,
                ps[t],
            ),
    decreases ps.len(),
{
    if ps.len() > 0 {
        lemma_models_of_pairs(ps.drop_first(), name, ext, k0 + 1);
    }
}

/// All hunk records of one file segment.
pub open spec fn seg_hunk_models(seg: Seq<Seq<char>>) -> Seq<HunkModel> {
    models_of_pairs(scan_hunks(seg, 0), spec_file_name(seg), spec_ext(spec_file_name(seg)), 0)
}

/// All hunk records of a sequence of file segments, in order.
pub open spec fn hunks_of_segments(segs: Seq<Seq<Seq<char>>>) -> Seq<HunkModel>
    decreases segs.len(),
{
    if segs.len() == 0 {
        Seq::empty()
    } else {
        seg_hunk_models(segs[0]) + hunks_of_segments(segs.drop_first())
    }
}

/// The hunks a diff text parses to.
pub open spec fn spec_hunks(text: Seq<char>) -> Seq<HunkModel> {
    hunks_of_segments(spec_segments(spec_lines(text)))
}

/// The sum of the added counts of `hs`.
pub open spec fn sum_added(hs: Seq<HunkModel>) -> int
    decreases hs.len(),
{
    if hs.len() == 0 {
        0
    } else {
        sum_added(hs.drop_last()) + hs.last().added
    }
}

/// The sum of the removed counts of `hs`.
pub open spec fn sum_removed(hs: Seq<HunkModel>) -> int
    decreases hs.len(),
{
    if hs.len() == 0 {
        0
    } else {
        sum_removed(hs.drop_last()) + hs.last().removed
    }
}

/// The distinct file names of `hs`.
pub open spec fn file_names_of(hs: Seq<HunkModel>) -> Set<Seq<char>> {
    hs.map_values(|h: HunkModel| h.file_name).to_set()
}

/// The totals belonging to a sequence of hunks: summed added and removed
/// counts, and the number of distinct file names.
pub open spec fn spec_totals(hs: Seq<HunkModel>) -> TotalModel {
    TotalModel {
        added: sum_added(hs),
        removed: sum_removed(hs),
        files: file_names_of(hs).len() as int,
    }
}

/// What a diff text parses to.
pub open spec fn spec_parse(text: Seq<char>) -> DiffModel {
    DiffModel { hunks: spec_hunks(text), total: spec_totals(spec_hunks(text)) }
}

pub proof fn lemma_first_where_is(seg: Seq<Seq<char>>, p: spec_fn(Seq<char>) -> bool, i: int, j: int)
    requires
        0 <= i <= j < seg.len(),
        p(seg[j]),
        forall|k: int| i <= k < j ==> !p(seg[k]),
    ensures
        first_where(seg, p, i) == j,
    decreases j - i,
{
    if i < j {
        lemma_first_where_is(seg, p, i + 1, j);
    }
}

pub proof fn lemma_first_where_none(seg: Seq<Seq<char>>, p: spec_fn(Seq<char>) -> bool, i: int)
    requires
        0 <= i,
        forall|k: int| i <= k < seg.len() ==> !p(seg[k]),
    ensures
        first_where(seg, p, i) == seg.len(),
    decreases seg.len() - i + 1,
{
    if i < seg.len() {
        lemma_first_where_none(seg, p, i + 1);
    }
}

/// The extension of a file name, empty when it has none.
pub fn ext_of(name: &str) -> (r: String)
    ensures
        r@ == spec_ext(name@),
{
    let n: usize = name.unicode_len();
    let start: usize = match rfind_char(name, '/') {
        Some(j) => j + 1,
        None => 0,
    };
    let fname = name.substring_char(start, n);
    let m: usize = fname.unicode_len();
    match rfind_char(fname, '.') {
        Some(k) => {
            if k >= 1 {
                fname.substring_char(k + 1, m).to_owned()
            } else {
                String::new()
            }
        },
        None => String::new(),
    }
}

/// Extract the file name a diff segment's lines describe: the first new-side
/// path line that names a real file, else the first such old-side line, else
/// a placeholder.
pub fn extract_file_name(lines: &Vec<String>) -> (r: String)
    ensures
        r@ == spec_file_name(lines.deep_view()),
{
    let ghost l = lines.deep_view();
    let ghost pp = |x: Seq<char>| qualifies_plus(x);
    let ghost pm = |x: Seq<char>| qualifies_minus(x);
    let mut i: usize = 0;
    while i < lines.len()
        invariant
            0 <= i <= lines.len(),
            l == lines.deep_view(),
            pp == (|x: Seq<char>| qualifies_plus(x)),
            forall|k: int| 0 <= k < i ==> !pp(l[k]),
        decreases lines.len() - i,
    {
        let line = &lines[i];
        if has_prefix(line.as_str(), "+++ ") && !contains_sub(line.as_str(), "/dev/null") {
            proof {
                assert(pp(l[i as int]));
                lemma_first_where_is(l, pp, 0, i as int);
            }
            return remove_first(line.as_str(), "+++ b/");
        }
        proof {
            assert(!pp(l[i as int]));
        }
        i = i + 1;
    }
    proof {
        lemma_first_where_none(l, pp, 0);
    }
    let mut i: usize = 0;
    while i < lines.len()
        invariant
            0 <= i <= lines.len(),
            l == lines.deep_view(),
            pm == (|x: Seq<char>| qualifies_minus(x)),
            first_where(l, |x: Seq<char>| qualifies_plus(x), 0) == l.len(),
            forall|k: int| 0 <= k < i ==> !pm(l[k]),
        decreases lines.len() - i,
    {
        let line = &lines[i];
        if has_prefix(line.as_str(), "--- ") && !contains_sub(line.as_str(), "/dev/null") {
            proof {
                assert(pm(l[i as int]));
                lemma_first_where_is(l, pm, 0, i as int);
            }
            return remove_first(line.as_str(), "--- a/");
        }
        proof {
            assert(!pm(l[i as int]));
        }
        i = i + 1;
    }
    proof {
        lemma_first_where_none(l, pm, 0);
    }
    String::from_str("Unknown file")
}

pub proof fn lemma_filter_push<A>(s: Seq<A>, x: A, p: spec_fn(A) -> bool)
    ensures
        s.push(x).filter(p) == if p(x) {
            s.filter(p).push(x)
        } else {
            s.filter(p)
        },
{
    reveal(Seq::filter);
    assert(s.push(x).drop_last() =~= s);
    assert(s.push(x).last() == x);
}

pub proof fn lemma_filter_empty<A>(s: Seq<A>, p: spec_fn(A) -> bool)
    requires
        s.len() == 0,
    ensures
        s.filter(p) == s,
{
    reveal(Seq::filter);
}

pub proof fn lemma_body_end_is(seg: Seq<Seq<char>>, i: int, j: int)
    requires
        0 <= i <= j <= seg.len(),
        forall|k: int| i <= k < j ==> !is_hunk_start(seg[k]),
        j == seg.len() || is_hunk_start(seg[j]),
    ensures
        body_end(seg, i) == j,
    decreases j - i,
{
    if i < j {
        lemma_body_end_is(seg, i + 1, j);
    }
}

/// The `@@ ... @@` span of a hunk-start line, with any trailing context text
/// discarded; the whole line when no closing marker token follows.
pub fn header_of(line: &str) -> (r: String)
    requires
        is_hunk_start(line@),
    ensures
        r@ == spec_header(line@),
{
    proof {
        reveal_strlit("@@");
    }
    let n: usize = line.unicode_len();
    let mut j: usize = 2;
    while j < n && line.get_char(j) != '@'
        invariant
            2 <= j <= n,
            n == line@.len(),
            forall|k: int| 2 <= k < j ==> line@[k] != '@',
        decreases n - j,
    {
        j = j + 1;
    }
    proof {
        if j < n {
            crate::text::lemma_first_index_is(line@, '@', 2, j as int);
        } else {
            lemma_first_index_from(line@, '@', 2);
            assert(first_index_from(line@, '@', 2) == n);
        }
    }
    let has_close = j < n && j + 1 < n && line.get_char(j + 1) == '@';
    if has_close {
        line.substring_char(0, j + 2).to_owned()
    } else {
        line.to_owned()
    }
}

/// How many lines of `body` start with `c`.
fn count_lines_starting(body: &Vec<String>, c: char) -> (r: usize)
    ensures
        r == count_starting(body.deep_view(), c),
{
    let ghost bv = body.deep_view();
    let mut r: usize = 0;
    let mut t: usize = 0;
    while t < body.len()
        invariant
            0 <= t <= body.len(),
            bv == body.deep_view(),
            r == count_starting(bv.take(t as int), c),
            r <= t,
        decreases body.len() - t,
    {
        let line = &body[t];
        proof {
            let pre = bv.take(t as int);
            assert(bv.take(t + 1).drop_last() =~= pre);
            assert(bv.take(t + 1).last() == bv[t as int]);
        }
        if line.as_str().unicode_len() > 0 && line.as_str().get_char(0) == c {
            r = r + 1;
        }
        t = t + 1;
    }
    proof {
        assert(bv.take(body.len() as int) =~= bv);
    }
    r
}

/// All hunks of one file segment, in order of appearance.
fn parse_segment(seg: &Vec<String>) -> (r: Vec<GitHunk>)
    ensures
        r.deep_view() == seg_hunk_models(seg.deep_view()),
{
    let ghost sv = seg.deep_view();
    let ghost scan0 = scan_hunks(sv, 0);
    let name = extract_file_name(seg);
    let ext = ext_of(name.as_str());
    let mut out: Vec<GitHunk> = Vec::new();
    let mut i: usize = 0;
    let mut k: usize = 0;
    proof {
        assert(scan0.take(0) =~= Seq::<(Seq<char>, Seq<Seq<char>>)>::empty());
        assert(scan0.take(0) + scan_hunks(sv, 0) =~= scan0);
    }
    while i < seg.len()
        invariant
            0 <= i <= seg.len(),
            sv == seg.deep_view(),
            scan0 == scan_hunks(sv, 0),
            name@ == spec_file_name(sv),
            ext@ == spec_ext(spec_file_name(sv)),
            k == out.len(),
            k <= scan0.len(),
            scan0 == scan0.take(k as int) + scan_hunks(sv, i as int),
            forall|t: int|
                0 <= t < k ==> out.deep_view()[t] == hunk_model_at(name@, ext@, t, scan0[t]),
        decreases seg.len() - i,
    {
        let line = &seg[i];
        if has_prefix(line.as_str(), "@@") {
            let header = header_of(line.as_str());
            let mut body: Vec<String> = Vec::new();
            let mut j: usize = i + 1;
            let ghost pnn = |l: Seq<char>| !is_no_newline_line(l);
            proof {
                assert(sv.subrange(i + 1, i + 1) =~= Seq::<Seq<char>>::empty());
                lemma_filter_empty(sv.subrange(i + 1, i + 1), pnn);
                assert(body.deep_view() =~= Seq::<Seq<char>>::empty());
            }
            while j < seg.len() && !has_prefix(seg[j].as_str(), "@@")
                invariant
                    i + 1 <= j <= seg.len(),
                    i < seg.len(),
                    sv == seg.deep_view(),
                    pnn == (|l: Seq<char>| !is_no_newline_line(l)),
                    forall|t: int| i + 1 <= t < j ==> !is_hunk_start(sv[t]),
                    body.deep_view() == sv.subrange(i + 1, j as int).filter(pnn),
                decreases seg.len() - j,
            {
                proof {
                    assert(sv.subrange(i + 1, j + 1) =~= sv.subrange(i + 1, j as int).push(
                        sv[j as int],
                    ));
                    lemma_filter_push(sv.subrange(i + 1, j as int), sv[j as int], pnn);
                }
                if !has_prefix(seg[j].as_str(), "\\ No newline at end of file") {
                    let ghost pre = body.deep_view();
                    body.push(seg[j].clone());
                    proof {
                        assert(body.deep_view() =~= pre.push(sv[j as int]));
                    }
                }
                j = j + 1;
            }
            proof {
                lemma_body_end_is(sv, i + 1, j as int);
            }
            let added = count_lines_starting(&body, '+');
            let removed = count_lines_starting(&body, '-');
            let ks = dec_usize(k);
            let id = name.clone().concat("-").concat(ks.as_str());
            let ghost pair = (spec_header(sv[i as int]), spec_body(sv, i + 1, j as int));
            proof {
                assert(scan_hunks(sv, i as int) == seq![pair] + scan_hunks(sv, j as int));
                assert(scan0[k as int] == pair);
                assert(scan0.take(k as int + 1) =~= scan0.take(k as int).push(pair));
                assert(id@ =~= name@ + "-"@ + spec_dec(k as int));
            }
            let ghost pre_out = out.deep_view();
            out.push(
                GitHunk {
                    file_name: name.clone(),
                    file_ext: ext.clone(),
                    hunk_header: header,
                    hunk_lines: body,
                    hunk_id: id,
                    stats: HunkStats {
                        added,
                        removed,
                        size: 0,
                        modified: String::from_str("unknown"),
                    },
                },
            );
            proof {
                assert(out.deep_view() =~= pre_out.push(
                    hunk_model_at(name@, ext@, k as int, pair),
                ));
                assert(scan0.take(k as int).push(pair) + scan_hunks(sv, j as int) =~= scan0.take(
                    k as int,
                ) + (seq![pair] + scan_hunks(sv, j as int)));
                assert(scan0 == scan0.take(k as int + 1) + scan_hunks(sv, j as int));
            }
            k = out.len();
            i = j;
        } else {
            proof {
                assert(scan_hunks(sv, i + 1) == scan_hunks(sv, i as int));
            }
            i = i + 1;
        }
    }
    proof {
        assert(scan_hunks(sv, i as int) =~= Seq::<(Seq<char>, Seq<Seq<char>>)>::empty());
        assert(scan0.take(k as int) =~= scan0);
        assert(k == scan0.len());
        lemma_models_of_pairs(scan0, name@, ext@, 0);
        assert(out.deep_view() =~= seg_hunk_models(sv));
    }
    out
}

pub proof fn lemma_seg_end_is(lines: Seq<Seq<char>>, i: int, j: int)
    requires
        0 <= i <= j <= lines.len(),
        forall|k: int| i <= k < j ==> !is_file_marker_line(lines[k]),
        j == lines.len() || is_file_marker_line(lines[j]),
    ensures
        seg_end(lines, i) == j,
    decreases j - i,
{
    if i < j {
        lemma_seg_end_is(lines, i + 1, j);
    }
}

/// Index of the first file-marker line at or after `i`, or the line count.
fn seg_end_from(lines: &Vec<String>, i: usize) -> (r: usize)
    requires
        i <= lines@.len(),
    ensures
        r == seg_end(lines.deep_view(), i as int),
        i <= r <= lines@.len(),
{
    let ghost lv = lines.deep_view();
    let mut j: usize = i;
    while j < lines.len() && !has_prefix(lines[j].as_str(), "diff --git")
        invariant
            i <= j <= lines@.len(),
            lv == lines.deep_view(),
            forall|k: int| i <= k < j ==> !is_file_marker_line(lv[k]),
        decreases lines@.len() - j,
    {
        j = j + 1;
    }
    proof {
        lemma_seg_end_is(lv, i as int, j as int);
    }
    j
}

/// Split a diff's lines into file segments, discarding everything before
/// the first marker line.
fn split_segments(lines: &Vec<String>) -> (r: Vec<Vec<String>>)
    ensures
        r.deep_view() == spec_segments(lines.deep_view()),
{
    let ghost lv = lines.deep_view();
    let mut segs: Vec<Vec<String>> = Vec::new();
    let mut i: usize = seg_end_from(lines, 0);
    proof {
        lemma_seg_end(lv, 0);
        assert(segs.deep_view() =~= Seq::<Seq<Seq<char>>>::empty());
        assert(segs.deep_view() + segments_from(lv, i as int) =~= segments_from(lv, i as int));
    }
    while i < lines.len()
        invariant
            0 <= i <= lines@.len(),
            lv == lines.deep_view(),
            i < lines@.len() ==> is_file_marker_line(lv[i as int]),
            spec_segments(lv) == segs.deep_view() + segments_from(lv, i as int),
        decreases lines@.len() - i,
    {
        let line = &lines[i];
        proof {
            reveal_strlit("diff --git");
        }
        let n_line: usize = line.as_str().unicode_len();
        let first = line.as_str().substring_char(10, n_line).to_owned();
        let mut cur: Vec<String> = Vec::new();
        cur.push(first);
        let e = seg_end_from(lines, i + 1);
        proof {
            assert(cur.deep_view() =~= seq![lv[i as int].skip(10)] + lv.subrange(i + 1, i + 1));
        }
        let mut t: usize = i + 1;
        while t < e
            invariant
                i + 1 <= t <= e <= lines@.len(),
                i < lines@.len(),
                lv == lines.deep_view(),
                cur.deep_view() == seq![lv[i as int].skip(10)] + lv.subrange(i + 1, t as int),
            decreases e - t,
        {
            let ghost pre = cur.deep_view();
            cur.push(lines[t].clone());
            proof {
                assert(cur.deep_view() =~= pre.push(lv[t as int]));
                assert(pre.push(lv[t as int]) =~= seq![lv[i as int].skip(10)] + lv.subrange(
                    i + 1,
                    t + 1,
                ));
            }
            t = t + 1;
        }
        let ghost cv = cur.deep_view();
        proof {
            lemma_seg_end(lv, i + 1);
            assert(segments_from(lv, i as int) == seq![cv] + segments_from(lv, e as int));
        }
        let ghost pre = segs.deep_view();
        segs.push(cur);
        proof {
            assert(segs.deep_view() =~= pre.push(cv));
            assert(pre.push(cv) + segments_from(lv, e as int) =~= pre + (seq![cv] + segments_from(
                lv,
                e as int,
            )));
        }
        i = e;
    }
    proof {
        assert(segments_from(lv, i as int) =~= Seq::<Seq<Seq<char>>>::empty());
        assert(segs.deep_view() =~= spec_segments(lv));
    }
    segs
}

pub proof fn lemma_sum_append(a: Seq<HunkModel>, b: Seq<HunkModel>)
    ensures
        sum_added(a + b) == sum_added(a) + sum_added(b),
        sum_removed(a + b) == sum_removed(a) + sum_removed(b),
    decreases b.len(),
{
    if b.len() == 0 {
        assert(a + b =~= a);
    } else {
        assert((a + b).drop_last() =~= a + b.drop_last());
        assert((a + b).last() == b.last());
        lemma_sum_append(a, b.drop_last());
    }
}

/// The added counts of a pair sequence, summed.
pub open spec fn pairs_added(ps: Seq<(Seq<char>, Seq<Seq<char>>)>) -> int
    decreases ps.len(),
{
    if ps.len() == 0 {
        0
    } else {
        count_starting(ps[0].1, '+') + pairs_added(ps.drop_first())
    }
}

/// The removed counts of a pair sequence, summed.
pub open spec fn pairs_removed(ps: Seq<(Seq<char>, Seq<Seq<char>>)>) -> int
    decreases ps.len(),
{
    if ps.len() == 0 {
        0
    } else {
        count_starting(ps[0].1, '-') + pairs_removed(ps.drop_first())
    }
}

pub proof fn lemma_models_sums(
    ps: Seq<(Seq<char>, Seq<Seq<char>>)>,
    name: Seq<char>,
    ext: Seq<char>,
    k0: int,
)
    ensures
        sum_added(models_of_pairs(ps, name, ext, k0)) == pairs_added(ps),
        sum_removed(models_of_pairs(ps, name, ext, k0)) == pairs_removed(ps),
    decreases ps.len(),
{
    if ps.len() > 0 {
        let m0 = hunk_model_at(name, ext, k0, ps[0]);
        lemma_models_sums(ps.drop_first(), name, ext, k0 + 1);
        lemma_sum_append(seq![m0], models_of_pairs(ps.drop_first(), name, ext, k0 + 1));
        assert(seq![m0].drop_last() =~= Seq::<HunkModel>::empty());
        assert(seq![m0].last() == m0);
        assert(sum_added(seq![m0]) == sum_added(seq![m0].drop_last()) + m0.added);
        assert(sum_added(seq![m0].drop_last()) == 0);
        assert(sum_removed(seq![m0]) == sum_removed(seq![m0].drop_last()) + m0.removed);
        assert(sum_removed(seq![m0].drop_last()) == 0);
        assert(models_of_pairs(ps, name, ext, k0) == seq![m0] + models_of_pairs(
            ps.drop_first(),
            name,
            ext,
            k0 + 1,
        ));
    }
}

pub proof fn lemma_scan_pairs_bound(seg: Seq<Seq<char>>, i: int)
    requires
        0 <= i <= seg.len(),
    ensures
        0 <= pairs_added(scan_hunks(seg, i)) <= seg.len() - i,
        0 <= pairs_removed(scan_hunks(seg, i)) <= seg.len() - i,
    decreases seg.len() - i,
{
    if i >= seg.len() {
    } else if is_hunk_start(seg[i]) {
        let e0 = body_end(seg, i + 1);
        lemma_body_end(seg, i + 1);
        let e = e0;
        let body = spec_body(seg, i + 1, e);
        let pair = (spec_header(seg[i]), body);
        assert(scan_hunks(seg, i) == seq![pair] + scan_hunks(seg, e));
        lemma_scan_pairs_bound(seg, e);
        seg.subrange(i + 1, e).lemma_filter_len(|l: Seq<char>| !is_no_newline_line(l));
        lemma_count_starting_bound(body, '+');
        lemma_count_starting_bound(body, '-');
        let tail = scan_hunks(seg, e);
        assert((seq![pair] + tail).drop_first() =~= tail);
        assert((seq![pair] + tail)[0] == pair);
        assert(pairs_added(scan_hunks(seg, i)) == count_starting(body, '+') + pairs_added(tail));
        assert(pairs_removed(scan_hunks(seg, i)) == count_starting(body, '-') + pairs_removed(
            tail,
        ));
    } else {
        lemma_scan_pairs_bound(seg, i + 1);
    }
}

/// The total number of lines held by a sequence of segments.
pub open spec fn total_seg_lines(segs: Seq<Seq<Seq<char>>>) -> int
    decreases segs.len(),
{
    if segs.len() == 0 {
        0
    } else {
        segs[0].len() + total_seg_lines(segs.drop_first())
    }
}

pub proof fn lemma_hos_bounds(segs: Seq<Seq<Seq<char>>>)
    ensures
        0 <= sum_added(hunks_of_segments(segs)) <= total_seg_lines(segs),
        0 <= sum_removed(hunks_of_segments(segs)) <= total_seg_lines(segs),
        forall|t: int|
            0 <= t < hunks_of_segments(segs).len() ==> 0 <= #[trigger] hunks_of_segments(
                segs,
            )[t].added && 0 <= hunks_of_segments(segs)[t].removed,
    decreases segs.len(),
{
    if segs.len() > 0 {
        let seg = segs[0];
        let head = seg_hunk_models(seg);
        let rest = hunks_of_segments(segs.drop_first());
        lemma_hos_bounds(segs.drop_first());
        lemma_sum_append(head, rest);
        lemma_scan_pairs_bound(seg, 0);
        lemma_models_sums(scan_hunks(seg, 0), spec_file_name(seg), spec_ext(spec_file_name(seg)), 0);
        lemma_models_of_pairs(
            scan_hunks(seg, 0),
            spec_file_name(seg),
            spec_ext(spec_file_name(seg)),
            0,
        );
        assert forall|t: int| 0 <= t < head.len() implies 0 <= #[trigger] head[t].added && 0
            <= head[t].removed by {
            lemma_count_starting_bound(scan_hunks(seg, 0)[t].1, '+');
            lemma_count_starting_bound(scan_hunks(seg, 0)[t].1, '-');
        }
        assert(0 <= sum_added(head) <= seg.len());
        assert(0 <= sum_removed(head) <= seg.len());
        assert forall|t: int| 0 <= t < hunks_of_segments(segs).len() implies 0
            <= #[trigger] hunks_of_segments(segs)[t].added && 0 <= hunks_of_segments(
            segs,
        )[t].removed by {
            if t < head.len() {
                assert(hunks_of_segments(segs)[t] == head[t]);
            } else {
                assert(hunks_of_segments(segs)[t] == rest[t - head.len()]);
            }
        }
    }
}

pub proof fn lemma_segments_total(lines: Seq<Seq<char>>, i: int)
    requires
        0 <= i <= lines.len(),
    ensures
        0 <= total_seg_lines(segments_from(lines, i)) <= lines.len() - i,
    decreases lines.len() - i,
{
    if i < lines.len() {
        let e0 = seg_end(lines, i + 1);
        lemma_seg_end(lines, i + 1);
        let e = e0;
        let seg = seq![lines[i].skip(10)] + lines.subrange(i + 1, e);
        let rest = segments_from(lines, e);
        lemma_segments_total(lines, e);
        assert((seq![seg] + rest).drop_first() =~= rest);
        assert((seq![seg] + rest)[0] == seg);
        assert(total_seg_lines(segments_from(lines, i)) == seg.len() + total_seg_lines(rest));
    }
}

pub proof fn lemma_lines_count(s: Seq<char>)
    ensures
        0 <= spec_lines(s).len() <= s.len(),
    decreases s.len(),
{
    if s.len() > 0 {
        lemma_first_index_from(s, '\n', 0);
        let j = first_index_from(s, '\n', 0);
        if 0 <= j < s.len() {
            lemma_lines_count(s.subrange(j + 1, s.len() as int));
        }
    }
}

/// Every hunk count of a parsed diff is non-negative, and the summed counts
/// are bounded by the length of the input text.
pub proof fn lemma_parse_sums(text: Seq<char>)
    ensures
        0 <= sum_added(spec_hunks(text)) <= text.len(),
        0 <= sum_removed(spec_hunks(text)) <= text.len(),
        forall|t: int|
            0 <= t < spec_hunks(text).len() ==> 0 <= #[trigger] spec_hunks(text)[t].added && 0
                <= spec_hunks(text)[t].removed,
{
    let lines = spec_lines(text);
    lemma_lines_count(text);
    lemma_seg_end(lines, 0);
    lemma_segments_total(lines, seg_end(lines, 0));
    lemma_hos_bounds(spec_segments(lines));
}

pub proof fn lemma_sum_prefix(hs: Seq<HunkModel>, t: int)
    requires
        0 <= t <= hs.len(),
        forall|u: int| 0 <= u < hs.len() ==> 0 <= #[trigger] hs[u].added && 0 <= hs[u].removed,
    ensures
        0 <= sum_added(hs.take(t)) <= sum_added(hs),
        0 <= sum_removed(hs.take(t)) <= sum_removed(hs),
{
    assert(hs =~= hs.take(t) + hs.skip(t));
    lemma_sum_append(hs.take(t), hs.skip(t));
    lemma_sum_nonneg(hs.take(t));
    lemma_sum_nonneg(hs.skip(t));
}

pub proof fn lemma_sum_nonneg(hs: Seq<HunkModel>)
    requires
        forall|u: int| 0 <= u < hs.len() ==> 0 <= #[trigger] hs[u].added && 0 <= hs[u].removed,
    ensures
        sum_added(hs) >= 0,
        sum_removed(hs) >= 0,
    decreases hs.len(),
{
    if hs.len() > 0 {
        assert(forall|u: int|
            0 <= u < hs.len() - 1 ==> hs.drop_last()[u] == #[trigger] hs[u]);
        lemma_sum_nonneg(hs.drop_last());
    }
}

/// Whether `seen` already holds a string equal to `name`.
fn saw_name(seen: &Vec<String>, name: &String) -> (r: bool)
    ensures
        r == seen.deep_view().contains(name@),
{
    let ghost sv = seen.deep_view();
    let mut u: usize = 0;
    while u < seen.len()
        invariant
            0 <= u <= seen@.len(),
            sv == seen.deep_view(),
            forall|k: int| 0 <= k < u ==> sv[k] != name@,
        decreases seen@.len() - u,
    {
        if seen[u] == *name {
            assert(sv[u as int] == name@);
            return true;
        }
        u = u + 1;
    }
    false
}

/// Parse a block of unified-diff text into per-file hunks with their
/// line statistics, and totals over the whole text: summed added and
/// removed counts and the number of distinct file names. File size and
/// modification metadata is left at its placeholder values.
pub fn parse_diff_to_hunks(diff_output: &str) -> (r: GitDiffResult)
    ensures
        r@ == spec_parse(diff_output@),
{
    let lines = split_lines(diff_output);
    let segs = split_segments(&lines);
    let ghost segsv = segs.deep_view();
    let mut hunks: Vec<GitHunk> = Vec::new();
    proof {
        assert(hunks.deep_view() =~= Seq::<HunkModel>::empty());
        assert(segsv.skip(0) =~= segsv);
        assert(hunks.deep_view() + hunks_of_segments(segsv) =~= hunks_of_segments(segsv));
    }
    let mut si: usize = 0;
    while si < segs.len()
        invariant
            0 <= si <= segs@.len(),
            segsv == segs.deep_view(),
            hunks_of_segments(segsv) == hunks.deep_view() + hunks_of_segments(
                segsv.skip(si as int),
            ),
        decreases segs@.len() - si,
    {
        let mut part = parse_segment(&segs[si]);
        let ghost partv = part.deep_view();
        let ghost pre = hunks.deep_view();
        hunks.append(&mut part);
        proof {
            assert(segsv.skip(si as int).drop_first() =~= segsv.skip(si as int + 1));
            assert(segsv.skip(si as int)[0] == segsv[si as int]);
            assert(hunks_of_segments(segsv.skip(si as int)) == partv + hunks_of_segments(
                segsv.skip(si as int + 1),
            ));
            assert(hunks.deep_view() =~= pre + partv);
            assert((pre + partv) + hunks_of_segments(segsv.skip(si as int + 1)) =~= pre + (partv
                + hunks_of_segments(segsv.skip(si as int + 1))));
        }
        si = si + 1;
    }
    let ghost hv = hunks.deep_view();
    let n_chars: usize = diff_output.unicode_len();
    proof {
        assert(segsv.skip(segs@.len() as int) =~= Seq::<Seq<Seq<char>>>::empty());
        assert(hv + hunks_of_segments(segsv.skip(segs@.len() as int)) =~= hv);
        assert(hv == spec_hunks(diff_output@));
        lemma_parse_sums(diff_output@);
        assert(hv.take(0) =~= Seq::<HunkModel>::empty());
    }
    let mut total_added: usize = 0;
    let mut total_removed: usize = 0;
    let mut t: usize = 0;
    while t < hunks.len()
        invariant
            0 <= t <= hunks@.len(),
            hv == hunks.deep_view(),
            hv == spec_hunks(diff_output@),
            n_chars == diff_output@.len(),
            total_added == sum_added(hv.take(t as int)),
            total_removed == sum_removed(hv.take(t as int)),
        decreases hunks@.len() - t,
    {
        proof {
            lemma_parse_sums(diff_output@);
            assert(hv.take(t as int + 1).drop_last() =~= hv.take(t as int));
            assert(hv.take(t as int + 1).last() == hv[t as int]);
            lemma_sum_prefix(hv, t as int + 1);
        }
        total_added = total_added + hunks[t].stats.added;
        total_removed = total_removed + hunks[t].stats.removed;
        t = t + 1;
    }
    proof {
        assert(hv.take(hunks@.len() as int) =~= hv);
    }
    let mut seen: Vec<String> = Vec::new();
    let mut t: usize = 0;
    proof {
        assert(seen.deep_view() =~= Seq::<Seq<char>>::empty());
        assert(hv.take(0).map_values(|h: HunkModel| h.file_name) =~= Seq::<Seq<char>>::empty());
        assert(seen.deep_view().to_set() =~= file_names_of(hv.take(0)));
    }
    while t < hunks.len()
        invariant
            0 <= t <= hunks@.len(),
            hv == hunks.deep_view(),
            seen.deep_view().no_duplicates(),
            seen.deep_view().to_set() == file_names_of(hv.take(t as int)),
        decreases hunks@.len() - t,
    {
        let ghost sv = seen.deep_view();
        let ghost nm = hv[t as int].file_name;
        proof {
            let f = |h: HunkModel| h.file_name;
            assert(hv.take(t as int + 1).map_values(f) =~= hv.take(t as int).map_values(f)
                + seq![nm]);
            Seq::lemma_to_set_insert_commutes(hv.take(t as int).map_values(f), nm);
        }
        if !saw_name(&seen, &hunks[t].file_name) {
            seen.push(hunks[t].file_name.clone());
            proof {
                assert(seen.deep_view() =~= sv.push(nm));
                assert(forall|k: int| 0 <= k < sv.len() ==> sv[k] != nm);
                assert(sv.push(nm).no_duplicates());
                assert(sv.push(nm) =~= sv + seq![nm]);
                Seq::lemma_to_set_insert_commutes(sv, nm);
                assert(seen.deep_view().to_set() =~= file_names_of(hv.take(t as int + 1)));
            }
        } else {
            proof {
                assert(sv.to_set().contains(nm));
                assert(sv.to_set().insert(nm) =~= sv.to_set());
                assert(seen.deep_view().to_set() =~= file_names_of(hv.take(t as int + 1)));
            }
        }
        t = t + 1;
    }
    let files = seen.len();
    proof {
        assert(hv.take(hunks@.len() as int) =~= hv);
        seen.deep_view().unique_seq_to_set();
        assert(files == file_names_of(hv).len());
    }
    let r = GitDiffResult {
        hunks,
        total_stats: TotalStats { added: total_added, removed: total_removed, files },
    };
    proof {
        assert(r@.hunks == spec_hunks(diff_output@));
        assert(r@.total == spec_totals(spec_hunks(diff_output@)));
    }
    r
}

pub proof fn lemma_filter_elems<A>(s: Seq<A>, p: spec_fn(A) -> bool)
    ensures
        forall|u: int|
            0 <= u < s.filter(p).len() ==> p(#[trigger] s.filter(p)[u]) && s.contains(
                s.filter(p)[u],
            ),
    decreases s.len(),
{
    reveal(Seq::filter);
    if s.len() > 0 {
        let rest = s.drop_last();
        lemma_filter_elems(rest, p);
        assert forall|u: int|
            0 <= u < s.filter(p).len() implies p(#[trigger] s.filter(p)[u]) && s.contains(
            s.filter(p)[u],
        ) by {
            if u < rest.filter(p).len() {
                let x = rest.filter(p)[u];
                assert(s.filter(p)[u] == x);
                let k = choose|k: int| 0 <= k < rest.len() && rest[k] == x;
                assert(s[k] == x);
            } else {
                assert(s.filter(p)[u] == s.last());
                assert(s[s.len() - 1] == s.last());
            }
        }
    }
}

pub proof fn lemma_header_is_marked(l: Seq<char>)
    requires
        is_hunk_start(l),
    ensures
        is_hunk_start(spec_header(l)),
{
    reveal_strlit("@@");
    assert(hunk_marker().len() == 2);
    assert(l.len() >= 2);
    lemma_first_index_from(l, '@', 2);
    let j = first_index_from(l, '@', 2);
    if j + 1 < l.len() && l[j + 1] == '@' {
        let h = l.subrange(0, j + 2);
        assert(h.subrange(0, hunk_marker().len() as int) =~= l.subrange(
            0,
            hunk_marker().len() as int,
        ));
    }
}

/// Every hunk of a scan has a header that carries the hunk marker, and a
/// body free of hunk-start lines and of missing-newline notices.
pub proof fn lemma_scan_clean(seg: Seq<Seq<char>>, i: int)
    requires
        0 <= i <= seg.len(),
    ensures
        forall|t: int, u: int|
            0 <= t < scan_hunks(seg, i).len() && 0 <= u < scan_hunks(seg, i)[t].1.len()
                ==> !is_hunk_start(#[trigger] scan_hunks(seg, i)[t].1[u]) && !is_no_newline_line(
                scan_hunks(seg, i)[t].1[u],
            ),
        forall|t: int|
            0 <= t < scan_hunks(seg, i).len() ==> is_hunk_start(
                (#[trigger] scan_hunks(seg, i)[t]).0,
            ),
    decreases seg.len() - i,
{
    if i >= seg.len() {
    } else if is_hunk_start(seg[i]) {
        let e = body_end(seg, i + 1);
        lemma_body_end(seg, i + 1);
        let body = spec_body(seg, i + 1, e);
        let pair = (spec_header(seg[i]), body);
        let tail = scan_hunks(seg, e);
        lemma_scan_clean(seg, e);
        lemma_header_is_marked(seg[i]);
        assert(scan_hunks(seg, i) == seq![pair] + tail);
        let sub = seg.subrange(i + 1, e);
        let p = |l: Seq<char>| !is_no_newline_line(l);
        lemma_filter_elems(sub, p);
        assert forall|u: int| 0 <= u < body.len() implies !is_hunk_start(body[u])
            && !is_no_newline_line(body[u]) by {
            assert(p(body[u]) && sub.contains(body[u]));
            let k = choose|k: int| 0 <= k < sub.len() && sub[k] == body[u];
            assert(seg[i + 1 + k] == sub[k]);
        }
        assert forall|t: int, u: int|
            0 <= t < scan_hunks(seg, i).len() && 0 <= u < scan_hunks(seg, i)[t].1.len()
            implies !is_hunk_start(#[trigger] scan_hunks(seg, i)[t].1[u]) && !is_no_newline_line(
            scan_hunks(seg, i)[t].1[u],
        ) by {
            if t > 0 {
                assert(scan_hunks(seg, i)[t] == tail[t - 1]);
                assert(!is_hunk_start(tail[t - 1].1[u]) && !is_no_newline_line(tail[t - 1].1[u]));
            } else {
                assert(scan_hunks(seg, i)[t] == pair);
            }
        }
        assert forall|t: int|
            0 <= t < scan_hunks(seg, i).len() implies is_hunk_start(
            (#[trigger] scan_hunks(seg, i)[t]).0,
        ) by {
            if t > 0 {
                assert(scan_hunks(seg, i)[t] == tail[t - 1]);
                assert(is_hunk_start(tail[t - 1].0));
            }
        }
    } else {
        lemma_scan_clean(seg, i + 1);
        assert(scan_hunks(seg, i) == scan_hunks(seg, i + 1));
        assert forall|t: int, u: int|
            0 <= t < scan_hunks(seg, i).len() && 0 <= u < scan_hunks(seg, i)[t].1.len()
            implies !is_hunk_start(#[trigger] scan_hunks(seg, i)[t].1[u]) && !is_no_newline_line(
            scan_hunks(seg, i)[t].1[u],
        ) by {
            assert(!is_hunk_start(scan_hunks(seg, i + 1)[t].1[u]) && !is_no_newline_line(
                scan_hunks(seg, i + 1)[t].1[u],
            ));
        }
        assert forall|t: int|
            0 <= t < scan_hunks(seg, i).len() implies is_hunk_start(
            (#[trigger] scan_hunks(seg, i)[t]).0,
        ) by {
            assert(is_hunk_start(scan_hunks(seg, i + 1)[t].0));
        }
    }
}

/// No hunk of a parsed diff holds, among its body lines, a line equal to
/// its own header or one equal to a missing-final-newline notice.
pub proof fn lemma_body_lines_clean(text: Seq<char>)
    ensures
        forall|t: int, u: int|
            0 <= t < spec_parse(text).hunks.len() && 0 <= u
                < spec_parse(text).hunks[t].hunk_lines.len() ==> (
            #[trigger] spec_parse(text).hunks[t].hunk_lines[u]) != spec_parse(
                text,
            ).hunks[t].hunk_header && !is_no_newline_line(spec_parse(text).hunks[t].hunk_lines[u]),
{
    lemma_hos_clean(spec_segments(spec_lines(text)));
}

pub proof fn lemma_hos_clean(segs: Seq<Seq<Seq<char>>>)
    ensures
        forall|t: int, u: int|
            0 <= t < hunks_of_segments(segs).len() && 0 <= u < hunks_of_segments(
                segs,
            )[t].hunk_lines.len() ==> (#[trigger] hunks_of_segments(segs)[t].hunk_lines[u])
                != hunks_of_segments(segs)[t].hunk_header && !is_no_newline_line(
                hunks_of_segments(segs)[t].hunk_lines[u],
            ),
    decreases segs.len(),
{
    if segs.len() > 0 {
        let seg = segs[0];
        let head = seg_hunk_models(seg);
        let rest = hunks_of_segments(segs.drop_first());
        lemma_hos_clean(segs.drop_first());
        lemma_scan_clean(seg, 0);
        lemma_models_of_pairs(
            scan_hunks(seg, 0),
            spec_file_name(seg),
            spec_ext(spec_file_name(seg)),
            0,
        );
        assert forall|t: int, u: int|
            0 <= t < hunks_of_segments(segs).len() && 0 <= u < hunks_of_segments(
            segs,
        )[t].hunk_lines.len() implies (#[trigger] hunks_of_segments(segs)[t].hunk_lines[u])
            != hunks_of_segments(segs)[t].hunk_header && !is_no_newline_line(
            hunks_of_segments(segs)[t].hunk_lines[u],
        ) by {
            if t < head.len() {
                assert(hunks_of_segments(segs)[t] == head[t]);
                let pr = scan_hunks(seg, 0)[t];
                assert(head[t] == hunk_model_at(
                    spec_file_name(seg),
                    spec_ext(spec_file_name(seg)),
                    t,
                    pr,
                ));
                assert(!is_hunk_start(pr.1[u]) && !is_no_newline_line(pr.1[u]));
                assert(is_hunk_start(pr.0));
            } else {
                assert(hunks_of_segments(segs)[t] == rest[t - head.len()]);
            }
        }
    }
}

/// The added and removed totals of a parsed diff equal the sums of its
/// hunks' per-hunk counts.
pub proof fn lemma_totals_are_sums(text: Seq<char>)
    ensures
        spec_parse(text).total.added == sum_added(spec_parse(text).hunks),
        spec_parse(text).total.removed == sum_removed(spec_parse(text).hunks),
{
}

/// The file total of a parsed diff is the number of distinct file names
/// among its hunks.
pub proof fn lemma_files_count_distinct(text: Seq<char>)
    ensures
        spec_parse(text).total.files == file_names_of(spec_parse(text).hunks).len(),
{
}

/// Empty input parses to no hunks and all-zero totals.
pub proof fn lemma_empty_input(text: Seq<char>)
    requires
        text.len() == 0,
    ensures
        spec_parse(text).hunks.len() == 0,
        spec_parse(text).total.added == 0,
        spec_parse(text).total.removed == 0,
        spec_parse(text).total.files == 0,
{
    assert(spec_lines(text) =~= Seq::<Seq<char>>::empty());
    assert(spec_hunks(text) =~= Seq::<HunkModel>::empty());
    let names = Seq::<HunkModel>::empty().map_values(|h: HunkModel| h.file_name);
    assert(names =~= Seq::<Seq<char>>::empty());
    names.unique_seq_to_set();
}

/// Parsing is a function of the text alone: identical inputs yield the
/// identical ordered hunk identifiers.
pub proof fn lemma_ids_stable(t1: Seq<char>, t2: Seq<char>)
    requires
        t1 == t2,
    ensures
        spec_parse(t1).hunks.map_values(|h: HunkModel| h.hunk_id) == spec_parse(
            t2,
        ).hunks.map_values(|h: HunkModel| h.hunk_id),
{
}

/// The distinct file names of a result's hunks, in order of first
/// appearance: the names whose metadata the augmenter looks up.
pub fn file_names(result: &GitDiffResult) -> (r: Vec<String>)
    ensures
        r.deep_view().no_duplicates(),
        r.deep_view().to_set() == file_names_of(result@.hunks),
{
    let ghost hv = result.hunks.deep_view();
    let mut seen: Vec<String> = Vec::new();
    let mut t: usize = 0;
    proof {
        assert(seen.deep_view() =~= Seq::<Seq<char>>::empty());
        assert(hv.take(0).map_values(|h: HunkModel| h.file_name) =~= Seq::<Seq<char>>::empty());
        assert(seen.deep_view().to_set() =~= file_names_of(hv.take(0)));
    }
    while t < result.hunks.len()
        invariant
            0 <= t <= result.hunks@.len(),
            hv == result.hunks.deep_view(),
            seen.deep_view().no_duplicates(),
            seen.deep_view().to_set() == file_names_of(hv.take(t as int)),
        decreases result.hunks@.len() - t,
    {
        let ghost sv = seen.deep_view();
        let ghost nm = hv[t as int].file_name;
        proof {
            let f = |h: HunkModel| h.file_name;
            assert(hv.take(t as int + 1).map_values(f) =~= hv.take(t as int).map_values(f)
                + seq![nm]);
            Seq::lemma_to_set_insert_commutes(hv.take(t as int).map_values(f), nm);
        }
        if !saw_name(&seen, &result.hunks[t].file_name) {
            seen.push(result.hunks[t].file_name.clone());
            proof {
                assert(seen.deep_view() =~= sv.push(nm));
                assert(forall|k: int| 0 <= k < sv.len() ==> sv[k] != nm);
                assert(sv.push(nm).no_duplicates());
                assert(sv.push(nm) =~= sv + seq![nm]);
                Seq::lemma_to_set_insert_commutes(sv, nm);
                assert(seen.deep_view().to_set() =~= file_names_of(hv.take(t as int + 1)));
            }
        } else {
            proof {
                assert(sv.to_set().contains(nm));
                assert(sv.to_set().insert(nm) =~= sv.to_set());
                assert(seen.deep_view().to_set() =~= file_names_of(hv.take(t as int + 1)));
            }
        }
        t = t + 1;
    }
    proof {
        assert(hv.take(result.hunks@.len() as int) =~= hv);
    }
    seen
}

} // verus!
