//! String utilities the parser and resolver build on: prefix tests,
//! substring search, line splitting, blank tests and decimal rendering,
//! each specified over the `Seq<char>` view of the text.

use vstd::prelude::*;

verus! {

/// `p` is an initial run of `s`.
pub open spec fn is_prefix(p: Seq<char>, s: Seq<char>) -> bool {
    p.len() <= s.len() && s.subrange(0, p.len() as int) == p
}

/// Whether `s` starts with `p`, decided character by character.
pub fn has_prefix(s: &str, p: &str) -> (r: bool)
    ensures
        r == is_prefix(p@, s@),
{
    let n: usize = p.unicode_len();
    let m: usize = s.unicode_len();
    if n > m {
        assert(!is_prefix(p@, s@));
        return false;
    }
    let mut i: usize = 0;
    while i < n
        invariant
            0 <= i <= n,
            n == p@.len(),
            n <= m == s@.len(),
            forall|k: int| 0 <= k < i ==> s@[k] == p@[k],
        decreases n - i,
    {
        if s.get_char(i) != p.get_char(i) {
            assert(!is_prefix(p@, s@)) by {
                assert(s@.subrange(0, n as int)[i as int] == s@[i as int]);
            }
            return false;
        }
        i = i + 1;
    }
    assert(s@.subrange(0, n as int) =~= p@);
    true
}

/// Index of the first occurrence of `c` in `s` at or after `i`;
/// `s.len()` when there is none.
pub open spec fn first_index_from(s: Seq<char>, c: char, i: int) -> int
    decreases s.len() - i when 0 <= i <= s.len()
{
    if i >= s.len() {
        s.len() as int
    } else if s[i] == c {
        i
    } else {
        first_index_from(s, c, i + 1)
    }
}

pub proof fn lemma_first_index_from(s: Seq<char>, c: char, i: int)
    requires
        0 <= i <= s.len(),
    ensures
        i <= first_index_from(s, c, i) <= s.len(),
        forall|k: int| i <= k < first_index_from(s, c, i) ==> s[k] != c,
        first_index_from(s, c, i) < s.len() ==> s[first_index_from(s, c, i)] == c,
    decreases s.len() - i,
{
    if i < s.len() && s[i] != c {
        lemma_first_index_from(s, c, i + 1);
    }
}

/// The first occurrence found by scanning is the one a witness pins down.
pub proof fn lemma_first_index_is(s: Seq<char>, c: char, i: int, j: int)
    requires
        0 <= i <= j < s.len(),
        s[j] == c,
        forall|k: int| i <= k < j ==> s[k] != c,
    ensures
        first_index_from(s, c, i) == j,
    decreases j - i,
{
    if i < j {
        lemma_first_index_is(s, c, i + 1, j);
    }
}

/// The pattern `pat` occurs in `s` starting at index `i`.
pub open spec fn occurs_at(s: Seq<char>, pat: Seq<char>, i: int) -> bool {
    0 <= i && i + pat.len() <= s.len() && s.subrange(i, i + pat.len()) == pat
}

/// Index of the first occurrence of `pat` in `s` at or after `i`;
/// `s.len() + 1` when there is none.
pub open spec fn first_match_from(s: Seq<char>, pat: Seq<char>, i: int) -> int
    decreases s.len() - i + 1 when 0 <= i
{
    if i + pat.len() > s.len() {
        s.len() as int + 1
    } else if s.subrange(i, i + pat.len()) == pat {
        i
    } else {
        first_match_from(s, pat, i + 1)
    }
}

pub proof fn lemma_first_match_from(s: Seq<char>, pat: Seq<char>, i: int)
    requires
        0 <= i,
    ensures
        first_match_from(s, pat, i) == s.len() + 1 || i <= first_match_from(s, pat, i),
        first_match_from(s, pat, i) <= s.len() + 1,
        first_match_from(s, pat, i) <= s.len() ==> occurs_at(s, pat, first_match_from(s, pat, i)),
        forall|k: int| i <= k < first_match_from(s, pat, i) ==> !occurs_at(s, pat, k),
    decreases s.len() - i + 1,
{
    if i + pat.len() > s.len() {
        assert forall|k: int| i <= k implies !occurs_at(s, pat, k) by {}
    } else if s.subrange(i, i + pat.len()) == pat {
    } else {
        lemma_first_match_from(s, pat, i + 1);
    }
}

/// The first occurrence of `pat` in `s`, if any.
pub open spec fn spec_find(s: Seq<char>, pat: Seq<char>) -> Option<int> {
    let j = first_match_from(s, pat, 0);
    if j <= s.len() {
        Some(j)
    } else {
        None
    }
}

/// Whether `pat` occurs anywhere in `s`.
pub open spec fn contains_seq(s: Seq<char>, pat: Seq<char>) -> bool {
    exists|i: int| occurs_at(s, pat, i)
}

pub proof fn lemma_spec_find_contains(s: Seq<char>, pat: Seq<char>)
    ensures
        spec_find(s, pat) is Some <==> contains_seq(s, pat),
        spec_find(s, pat) matches Some(j) ==> occurs_at(s, pat, j) && (forall|k: int|
            0 <= k < j ==> !occurs_at(s, pat, k)),
{
    lemma_first_match_from(s, pat, 0);
    if contains_seq(s, pat) {
        let w = choose|i: int| occurs_at(s, pat, i);
        assert(first_match_from(s, pat, 0) <= w);
    }
}

/// Whether `pat` occurs in `s` starting exactly at `i`.
fn match_at(s: &str, pat: &str, i: usize) -> (r: bool)
    requires
        i + pat@.len() <= s@.len(),
        s@.len() <= usize::MAX,
    ensures
        r == occurs_at(s@, pat@, i as int),
{
    let n: usize = pat.unicode_len();
    let mut k: usize = 0;
    while k < n
        invariant
            0 <= k <= n,
            n == pat@.len(),
            i + n <= s@.len() <= usize::MAX,
            forall|t: int| 0 <= t < k ==> s@[i + t] == pat@[t],
        decreases n - k,
    {
        if s.get_char(i + k) != pat.get_char(k) {
            assert(!occurs_at(s@, pat@, i as int)) by {
                assert(s@.subrange(i as int, i + n)[k as int] == s@[i + k]);
            }
            return false;
        }
        k = k + 1;
    }
    assert(s@.subrange(i as int, i + n) =~= pat@);
    true
}

/// Index of the first occurrence of `pat` in `s`, if any.
pub fn find_sub(s: &str, pat: &str) -> (r: Option<usize>)
    ensures
        r matches Some(j) ==> j == first_match_from(s@, pat@, 0) && j <= s@.len(),
        r is None ==> first_match_from(s@, pat@, 0) == s@.len() + 1,
        r is Some <==> contains_seq(s@, pat@),
        r matches Some(j) ==> occurs_at(s@, pat@, j as int),
{
    proof {
        lemma_spec_find_contains(s@, pat@);
    }
    let n: usize = s.unicode_len();
    let m: usize = pat.unicode_len();
    if m > n {
        return None;
    }
    if m == 0 {
        assert(s@.subrange(0, 0) =~= pat@);
        assert(first_match_from(s@, pat@, 0) == 0);
        return Some(0);
    }
    let mut i: usize = 0;
    while i <= n - m
        invariant
            0 <= i,
            1 <= m <= n,
            i <= n - m + 1,
            n == s@.len(),
            m == pat@.len(),
            first_match_from(s@, pat@, i as int) == first_match_from(s@, pat@, 0),
        decreases n - i,
    {
        if match_at(s, pat, i) {
            assert(first_match_from(s@, pat@, i as int) == i);
            return Some(i);
        }
        assert(first_match_from(s@, pat@, i + 1) == first_match_from(s@, pat@, i as int));
        i = i + 1;
    }
    assert(first_match_from(s@, pat@, i as int) == s@.len() + 1);
    None
}

/// Whether `pat` occurs anywhere in `s`.
pub fn contains_sub(s: &str, pat: &str) -> (r: bool)
    ensures
        r == contains_seq(s@, pat@),
{
    find_sub(s, pat).is_some()
}

/// `s` with the first occurrence of `pat` removed; `s` itself when `pat`
/// does not occur.
pub open spec fn spec_remove_first(s: Seq<char>, pat: Seq<char>) -> Seq<char> {
    let j = first_match_from(s, pat, 0);
    if j <= s.len() {
        s.subrange(0, j) + s.subrange(j + pat.len(), s.len() as int)
    } else {
        s
    }
}

/// Remove the first occurrence of `pat` from `s`, if there is one.
pub fn remove_first(s: &str, pat: &str) -> (r: String)
    ensures
        r@ == spec_remove_first(s@, pat@),
{
    match find_sub(s, pat) {
        None => s.to_owned(),
        Some(j) => {
            let n: usize = s.unicode_len();
            let m: usize = pat.unicode_len();
            let head = s.substring_char(0, j);
            let tail = s.substring_char(j + m, n);
            let r = head.to_owned().concat(tail);
            proof {
                assert(r@ =~= spec_remove_first(s@, pat@));
            }
            r
        },
    }
}

/// The characters treated as spacing when a text is tested for blankness
/// or trimmed.
pub open spec fn is_space_char(c: char) -> bool {
    c == ' ' || c == '\t' || c == '\n' || c == '\r' || c == '\u{b}' || c == '\u{c}'
}

/// `s` holds nothing but spacing.
pub open spec fn is_blank(s: Seq<char>) -> bool {
    forall|i: int| 0 <= i < s.len() ==> is_space_char(s[i])
}

fn space_char(c: char) -> (r: bool)
    ensures
        r == is_space_char(c),
{
    c == ' ' || c == '\t' || c == '\n' || c == '\r' || c == '\u{b}' || c == '\u{c}'
}

/// Whether `s` holds nothing but spacing (so a trimmed `s` would be empty).
pub fn blank(s: &str) -> (r: bool)
    ensures
        r == is_blank(s@),
{
    let n: usize = s.unicode_len();
    let mut i: usize = 0;
    while i < n
        invariant
            0 <= i <= n,
            n == s@.len(),
            forall|k: int| 0 <= k < i ==> is_space_char(s@[k]),
        decreases n - i,
    {
        if !space_char(s.get_char(i)) {
            return false;
        }
        i = i + 1;
    }
    true
}

/// `s` without its leading spacing.
pub open spec fn trim_front(s: Seq<char>) -> Seq<char>
    decreases s.len(),
{
    if s.len() > 0 && is_space_char(s[0]) {
        trim_front(s.drop_first())
    } else {
        s
    }
}

/// `s` without its trailing spacing.
pub open spec fn trim_back(s: Seq<char>) -> Seq<char>
    decreases s.len(),
{
    if s.len() > 0 && is_space_char(s.last()) {
        trim_back(s.drop_last())
    } else {
        s
    }
}

/// `s` without leading and trailing spacing.
pub open spec fn spec_trim(s: Seq<char>) -> Seq<char> {
    trim_back(trim_front(s))
}

/// Trim leading and trailing spacing from `s`.
pub fn trim(s: &str) -> (r: String)
    ensures
        r@ == spec_trim(s@),
{
    let n: usize = s.unicode_len();
    proof {
        assert(s@.subrange(0, n as int) =~= s@);
    }
    let mut a: usize = 0;
    while a < n && space_char(s.get_char(a))
        invariant
            0 <= a <= n,
            n == s@.len(),
            trim_front(s@) == trim_front(s@.subrange(a as int, n as int)),
        decreases n - a,
    {
        proof {
            let t = s@.subrange(a as int, n as int);
            assert(t.drop_first() =~= s@.subrange(a + 1, n as int));
        }
        a = a + 1;
    }
    proof {
        assert(trim_front(s@.subrange(a as int, n as int)) == s@.subrange(a as int, n as int));
    }
    let mut b: usize = n;
    while b > a && space_char(s.get_char(b - 1))
        invariant
            0 <= a <= b <= n,
            n == s@.len(),
            trim_front(s@) == s@.subrange(a as int, n as int),
            trim_back(s@.subrange(a as int, n as int)) == trim_back(
                s@.subrange(a as int, b as int),
            ),
        decreases b - a,
    {
        proof {
            let t = s@.subrange(a as int, b as int);
            assert(t.drop_last() =~= s@.subrange(a as int, b - 1));
        }
        b = b - 1;
    }
    let r = s.substring_char(a, b).to_owned();
    proof {
        let t = s@.subrange(a as int, b as int);
        if b > a {
            assert(t.last() == s@[b - 1]);
        }
        assert(trim_back(t) == t);
    }
    r
}

/// Strip one trailing carriage return, as the standard line splitting does
/// for every newline-terminated line.
pub open spec fn strip_cr(l: Seq<char>) -> Seq<char> {
    if l.len() > 0 && l.last() == '\r' {
        l.drop_last()
    } else {
        l
    }
}

/// The lines of `s`: split at each newline, one trailing carriage return
/// stripped from every newline-terminated piece, and no empty final piece
/// for a text that ends with a newline.
pub open spec fn spec_lines(s: Seq<char>) -> Seq<Seq<char>>
    decreases s.len(),
{
    if s.len() == 0 {
        Seq::empty()
    } else {
        let j = first_index_from(s, '\n', 0);
        if 0 <= j < s.len() {
            seq![strip_cr(s.subrange(0, j))] + spec_lines(s.subrange(j + 1, s.len() as int))
        } else {
            seq![s]
        }
    }
}

/// Split `s` into its lines.
pub fn split_lines(s: &str) -> (r: Vec<String>)
    ensures
        r.deep_view() == spec_lines(s@),
{
    let n: usize = s.unicode_len();
    let mut r: Vec<String> = Vec::new();
    proof {
        assert(s@.subrange(0, n as int) =~= s@);
        assert(r.deep_view() =~= Seq::<Seq<char>>::empty());
        assert(r.deep_view() + spec_lines(s@) =~= spec_lines(s@));
    }
    let mut start: usize = 0;
    let mut i: usize = 0;
    while i < n
        invariant
            0 <= start <= i <= n,
            n == s@.len(),
            forall|k: int| start <= k < i ==> s@[k] != '\n',
            spec_lines(s@) == r.deep_view() + spec_lines(s@.subrange(start as int, n as int)),
        decreases n - i,
    {
        if s.get_char(i) == '\n' {
            let piece = if i > start && s.get_char(i - 1) == '\r' {
                s.substring_char(start, i - 1)
            } else {
                s.substring_char(start, i)
            };
            let ghost pre = r.deep_view();
            let ghost tail = s@.subrange(start as int, n as int);
            let ghost rest = s@.subrange(i + 1, n as int);
            proof {
                assert(forall|k: int| 0 <= k < tail.len() ==> tail[k] == s@[start + k]);
                lemma_first_index_is(tail, '\n', 0, i - start);
                assert(tail.subrange(0, i - start) =~= s@.subrange(start as int, i as int));
                assert(tail.subrange(i - start + 1, tail.len() as int) =~= rest);
                assert(piece@ =~= strip_cr(s@.subrange(start as int, i as int)));
                assert(spec_lines(tail) == seq![piece@] + spec_lines(rest));
            }
            r.push(piece.to_owned());
            proof {
                assert(r.deep_view() =~= pre.push(piece@));
                assert(pre.push(piece@) + spec_lines(rest) =~= pre + (seq![piece@] + spec_lines(
                    rest,
                )));
            }
            start = i + 1;
        }
        i = i + 1;
    }
    if start < n {
        let piece = s.substring_char(start, n);
        let ghost pre = r.deep_view();
        let ghost tail = s@.subrange(start as int, n as int);
        proof {
            assert(forall|k: int| 0 <= k < tail.len() ==> tail[k] == s@[start + k]);
            lemma_first_index_from(tail, '\n', 0);
            assert(first_index_from(tail, '\n', 0) == tail.len());
            assert(spec_lines(tail) == seq![tail]);
        }
        r.push(piece.to_owned());
        proof {
            assert(r.deep_view() =~= pre.push(piece@));
            assert(pre.push(piece@) =~= pre + seq![tail]);
        }
    } else {
        proof {
            assert(s@.subrange(start as int, n as int).len() == 0);
            assert(r.deep_view() + spec_lines(s@.subrange(start as int, n as int)) =~= r.deep_view());
        }
    }
    r
}

/// The digit character for a value below ten.
pub open spec fn dec_digit_char(d: int) -> char {
    if d == 0 {
        '0'
    } else if d == 1 {
        '1'
    } else if d == 2 {
        '2'
    } else if d == 3 {
        '3'
    } else if d == 4 {
        '4'
    } else if d == 5 {
        '5'
    } else if d == 6 {
        '6'
    } else if d == 7 {
        '7'
    } else if d == 8 {
        '8'
    } else {
        '9'
    }
}

/// The decimal rendering of a non-negative number, most significant digit
/// first, with no leading zero except for zero itself.
pub open spec fn spec_dec(n: int) -> Seq<char>
    decreases n,
{
    if n < 10 {
        seq![dec_digit_char(n)]
    } else {
        spec_dec(n / 10) + seq![dec_digit_char(n % 10)]
    }
}

fn digit_str(d: u64) -> (r: &'static str)
    requires
        d < 10,
    ensures
        r@ == seq![dec_digit_char(d as int)],
{
    proof {
        reveal_strlit("0");
        reveal_strlit("1");
        reveal_strlit("2");
        reveal_strlit("3");
        reveal_strlit("4");
        reveal_strlit("5");
        reveal_strlit("6");
        reveal_strlit("7");
        reveal_strlit("8");
        reveal_strlit("9");
    }
    let r = if d == 0 {
        "0"
    } else if d == 1 {
        "1"
    } else if d == 2 {
        "2"
    } else if d == 3 {
        "3"
    } else if d == 4 {
        "4"
    } else if d == 5 {
        "5"
    } else if d == 6 {
        "6"
    } else if d == 7 {
        "7"
    } else if d == 8 {
        "8"
    } else {
        "9"
    };
    proof {
        assert(r@ =~= seq![dec_digit_char(d as int)]);
    }
    r
}

/// Render `n` in decimal.
pub fn dec_u64(n: u64) -> (r: String)
    ensures
        r@ == spec_dec(n as int),
    decreases n,
{
    if n < 10 {
        digit_str(n).to_owned()
    } else {
        let r = dec_u64(n / 10).concat(digit_str(n % 10));
        proof {
            assert(r@ =~= spec_dec(n as int));
        }
        r
    }
}

/// Render `n` in decimal.
pub fn dec_usize(n: usize) -> (r: String)
    ensures
        r@ == spec_dec(n as int),
{
    dec_u64(n as u64)
}

/// Render `n` in decimal.
pub fn dec_u32(n: u32) -> (r: String)
    ensures
        r@ == spec_dec(n as int),
{
    dec_u64(n as u64)
}

/// Index of the last occurrence of `c` in `s`; `-1` when there is none.
pub open spec fn last_index_of(s: Seq<char>, c: char) -> int
    decreases s.len(),
{
    if s.len() == 0 {
        -1
    } else if s.last() == c {
        s.len() - 1
    } else {
        last_index_of(s.drop_last(), c)
    }
}

pub proof fn lemma_last_index_of(s: Seq<char>, c: char)
    ensures
        -1 <= last_index_of(s, c) < s.len(),
        last_index_of(s, c) >= 0 ==> s[last_index_of(s, c)] == c,
        forall|k: int| last_index_of(s, c) < k < s.len() ==> s[k] != c,
    decreases s.len(),
{
    if s.len() > 0 && s.last() != c {
        lemma_last_index_of(s.drop_last(), c);
        assert(forall|k: int| 0 <= k < s.len() - 1 ==> s.drop_last()[k] == s[k]);
    }
}

pub proof fn lemma_last_index_is(s: Seq<char>, c: char, j: int)
    requires
        0 <= j < s.len(),
        s[j] == c,
        forall|k: int| j < k < s.len() ==> s[k] != c,
    ensures
        last_index_of(s, c) == j,
    decreases s.len(),
{
    if j < s.len() - 1 {
        assert(forall|k: int| 0 <= k < s.len() - 1 ==> s.drop_last()[k] == s[k]);
        lemma_last_index_is(s.drop_last(), c, j);
    }
}

pub proof fn lemma_last_index_none(s: Seq<char>, c: char)
    requires
        forall|k: int| 0 <= k < s.len() ==> s[k] != c,
    ensures
        last_index_of(s, c) == -1,
    decreases s.len(),
{
    if s.len() > 0 {
        assert(forall|k: int| 0 <= k < s.len() - 1 ==> s.drop_last()[k] == s[k]);
        lemma_last_index_none(s.drop_last(), c);
    }
}

/// Index of the last occurrence of `c` in `s`, if any.
pub fn rfind_char(s: &str, c: char) -> (r: Option<usize>)
    ensures
        r matches Some(j) ==> j == last_index_of(s@, c) && j < s@.len(),
        r is None ==> last_index_of(s@, c) == -1,
{
    let n: usize = s.unicode_len();
    let mut i: usize = n;
    while i > 0
        invariant
            0 <= i <= n,
            n == s@.len(),
            forall|k: int| i <= k < n ==> s@[k] != c,
        decreases i,
    {
        if s.get_char(i - 1) == c {
            proof {
                lemma_last_index_is(s@, c, i - 1);
            }
            return Some(i - 1);
        }
        i = i - 1;
    }
    proof {
        lemma_last_index_none(s@, c);
    }
    None
}

/// Whether two texts hold the same characters.
pub fn str_eq(a: &str, b: &str) -> (r: bool)
    ensures
        r == (a@ == b@),
{
    let la: usize = a.unicode_len();
    let lb: usize = b.unicode_len();
    if la != lb {
        return false;
    }
    let r = has_prefix(a, b);
    proof {
        assert(a@.subrange(0, lb as int) =~= a@);
    }
    r
}

/// Index of the first occurrence of `c` in `s`, if any.
pub fn find_char(s: &str, c: char) -> (r: Option<usize>)
    ensures
        r matches Some(j) ==> j == first_index_from(s@, c, 0) && j < s@.len(),
        r is None ==> first_index_from(s@, c, 0) == s@.len(),
{
    let n: usize = s.unicode_len();
    let mut i: usize = 0;
    while i < n
        invariant
            0 <= i <= n,
            n == s@.len(),
            forall|k: int| 0 <= k < i ==> s@[k] != c,
        decreases n - i,
    {
        if s.get_char(i) == c {
            proof {
                lemma_first_index_is(s@, c, 0, i as int);
            }
            return Some(i);
        }
        i = i + 1;
    }
    proof {
        lemma_first_index_from(s@, c, 0);
    }
    None
}

} // verus!
