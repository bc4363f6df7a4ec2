//! Low-level text handling: character-level string equality, splitting a
//! text into lines on `'\n'`, splitting a line into whitespace-separated
//! tokens, and splitting a keymap line on its `" = "` separator.

use vstd::prelude::*;
use vstd::string::StrSliceExecFns;

verus! {

/// Characters treated as token separators inside a line.
pub open spec fn is_ws(c: char) -> bool {
    c == ' ' || c == '\t' || c == '\r'
}

/// Index of the first non-separator character at or after `i`, or `s.len()`.
pub open spec fn skip_ws_from(s: Seq<char>, i: int) -> int
    decreases s.len() - i,
{
    if 0 <= i < s.len() && is_ws(s[i]) {
        skip_ws_from(s, i + 1)
    } else {
        i
    }
}

/// Index just past the token starting at `i`: the first separator character
/// at or after `i`, or `s.len()`.
pub open spec fn token_end_from(s: Seq<char>, i: int) -> int
    decreases s.len() - i,
{
    if 0 <= i < s.len() && !is_ws(s[i]) {
        token_end_from(s, i + 1)
    } else {
        i
    }
}

pub proof fn lemma_skip_ws_from(s: Seq<char>, i: int)
    requires
        0 <= i <= s.len(),
    ensures
        i <= skip_ws_from(s, i) <= s.len(),
        skip_ws_from(s, i) < s.len() ==> !is_ws(s[skip_ws_from(s, i)]),
        skip_ws_from(s, skip_ws_from(s, i)) == skip_ws_from(s, i),
    decreases s.len() - i,
{
    if i < s.len() && is_ws(s[i]) {
        lemma_skip_ws_from(s, i + 1);
    }
}

pub proof fn lemma_token_end_from(s: Seq<char>, i: int)
    requires
        0 <= i <= s.len(),
    ensures
        i <= token_end_from(s, i) <= s.len(),
        i < s.len() && !is_ws(s[i]) ==> token_end_from(s, i) > i,
    decreases s.len() - i,
{
    if i < s.len() && !is_ws(s[i]) {
        lemma_token_end_from(s, i + 1);
    }
}

/// The whitespace-separated tokens of `s` from position `i` on.
pub open spec fn tokens_from(s: Seq<char>, i: int) -> Seq<Seq<char>>
    decreases s.len() - i,
        when 0 <= i <= s.len()
        via tokens_from_decreases
{
    let j = skip_ws_from(s, i);
    if j >= s.len() {
        Seq::empty()
    } else {
        let k = token_end_from(s, j);
        seq![s.subrange(j, k)] + tokens_from(s, k)
    }
}

#[via_fn]
proof fn tokens_from_decreases(s: Seq<char>, i: int) {
    lemma_skip_ws_from(s, i);
    let j = skip_ws_from(s, i);
    if j < s.len() {
        lemma_token_end_from(s, j);
    }
}

/// The whitespace-separated tokens of a whole line.
pub open spec fn tokens_of(s: Seq<char>) -> Seq<Seq<char>> {
    tokens_from(s, 0)
}

/// Tokenizing from `i` is the same as tokenizing from the first
/// non-separator position at or after `i`.
pub proof fn lemma_tokens_from_skip(s: Seq<char>, i: int)
    requires
        0 <= i <= s.len(),
    ensures
        tokens_from(s, i) == tokens_from(s, skip_ws_from(s, i)),
{
    lemma_skip_ws_from(s, i);
}

/// Character-by-character string equality, reflected as equality of views.
pub fn str_eq(a: &str, b: &str) -> (r: bool)
    ensures
        r == (a@ == b@),
{
    let na = a.unicode_len();
    let nb = b.unicode_len();
    if na != nb {
        assert(a@ != b@);
        return false;
    }
    let mut i: usize = 0;
    while i < na
        invariant
            na == a@.len(),
            na == b@.len(),
            i <= na,
            forall|j: int| 0 <= j < i ==> a@[j] == b@[j],
        decreases na - i,
    {
        if a.get_char(i) != b.get_char(i) {
            assert(a@ != b@);
            return false;
        }
        i += 1;
    }
    assert(a@ =~= b@);
    true
}

fn is_ws_char(c: char) -> (r: bool)
    ensures
        r == is_ws(c),
{
    c == ' ' || c == '\t' || c == '\r'
}

fn skip_ws_exec(s: &str, n: usize, i: usize) -> (r: usize)
    requires
        n == s@.len(),
        i <= n,
    ensures
        r == skip_ws_from(s@, i as int),
        i <= r <= n,
{
    let mut cur = i;
    while cur < n && is_ws_char(s.get_char(cur))
        invariant
            n == s@.len(),
            i <= cur <= n,
            skip_ws_from(s@, i as int) == skip_ws_from(s@, cur as int),
        decreases n - cur,
    {
        cur += 1;
    }
    proof {
        lemma_skip_ws_from(s@, i as int);
    }
    cur
}

fn token_end_exec(s: &str, n: usize, i: usize) -> (r: usize)
    requires
        n == s@.len(),
        i <= n,
    ensures
        r == token_end_from(s@, i as int),
        i <= r <= n,
{
    let mut cur = i;
    while cur < n && !is_ws_char(s.get_char(cur))
        invariant
            n == s@.len(),
            i <= cur <= n,
            token_end_from(s@, i as int) == token_end_from(s@, cur as int),
        decreases n - cur,
    {
        cur += 1;
    }
    proof {
        lemma_token_end_from(s@, i as int);
    }
    cur
}

/// Split a line into its whitespace-separated tokens.
pub fn tokenize(s: &str) -> (r: Vec<String>)
    ensures
        r.deep_view() == tokens_of(s@),
{
    let n = s.unicode_len();
    let mut r: Vec<String> = Vec::new();
    let mut i = skip_ws_exec(s, n, 0);
    proof {
        lemma_tokens_from_skip(s@, 0);
        lemma_skip_ws_from(s@, 0);
        assert(r.deep_view() + tokens_from(s@, i as int) =~= tokens_of(s@));
    }
    while i < n
        invariant
            n == s@.len(),
            i <= n,
            skip_ws_from(s@, i as int) == i as int,
            r.deep_view() + tokens_from(s@, i as int) == tokens_of(s@),
        decreases n - i,
    {
        let ghost prev = r.deep_view();
        let ghost i0 = i as int;
        let k = token_end_exec(s, n, i);
        let t = s.substring_char(i, k);
        r.push(t.to_owned());
        proof {
            lemma_token_end_from(s@, i0);
        }
        i = skip_ws_exec(s, n, k);
        proof {
            let k0 = token_end_from(s@, i0);
            lemma_skip_ws_from(s@, k0);
            lemma_tokens_from_skip(s@, k0);
            assert(tokens_from(s@, i0) == seq![s@.subrange(i0, k0)] + tokens_from(s@, k0));
            assert(r.deep_view() =~= prev.push(s@.subrange(i0, k0)));
            assert(r.deep_view() + tokens_from(s@, i as int) =~= tokens_of(s@));
        }
    }
    proof {
        assert(tokens_from(s@, i as int) =~= Seq::<Seq<char>>::empty());
        assert(r.deep_view() =~= tokens_of(s@));
    }
    r
}

/// Index just past the line starting at `i`: the first `'\n'` at or after
/// `i`, or `s.len()`.
pub open spec fn line_end_from(s: Seq<char>, i: int) -> int
    decreases s.len() - i,
{
    if 0 <= i < s.len() && s[i] != '\n' {
        line_end_from(s, i + 1)
    } else {
        i
    }
}

pub proof fn lemma_line_end_from(s: Seq<char>, i: int)
    requires
        0 <= i <= s.len(),
    ensures
        i <= line_end_from(s, i) <= s.len(),
    decreases s.len() - i,
{
    if i < s.len() && s[i] != '\n' {
        lemma_line_end_from(s, i + 1);
    }
}

/// The segments of `s` from position `i` on, split on `'\n'`. A text with no
/// newline is a single segment; a trailing newline yields a final empty
/// segment, as splitting on a separator does.
pub open spec fn lines_from(s: Seq<char>, i: int) -> Seq<Seq<char>>
    decreases s.len() - i,
        when 0 <= i <= s.len()
        via lines_from_decreases
{
    let e = line_end_from(s, i);
    if e >= s.len() {
        seq![s.subrange(i, s.len() as int)]
    } else {
        seq![s.subrange(i, e)] + lines_from(s, e + 1)
    }
}

#[via_fn]
proof fn lines_from_decreases(s: Seq<char>, i: int) {
    lemma_line_end_from(s, i);
}

/// The lines of a text, split on `'\n'`.
pub open spec fn lines_of(s: Seq<char>) -> Seq<Seq<char>> {
    lines_from(s, 0)
}

/// The keymap separator `" = "` stands at position `i` of `s`.
pub open spec fn sep_at(s: Seq<char>, i: int) -> bool {
    &&& 0 <= i
    &&& i + 3 <= s.len()
    &&& s[i] == ' '
    &&& s[i + 1] == '='
    &&& s[i + 2] == ' '
}

/// Position of the first `" = "` at or after `i`, or `s.len()` if there is
/// none (no separator fits there, so the sentinel is unambiguous).
pub open spec fn find_sep_from(s: Seq<char>, i: int) -> int
    decreases s.len() - i,
{
    if 0 <= i && i + 3 <= s.len() {
        if sep_at(s, i) {
            i
        } else {
            find_sep_from(s, i + 1)
        }
    } else {
        s.len() as int
    }
}

pub proof fn lemma_find_sep_from(s: Seq<char>, i: int)
    requires
        0 <= i <= s.len(),
    ensures
        i <= find_sep_from(s, i) <= s.len(),
        sep_at(s, find_sep_from(s, i)) || find_sep_from(s, i) == s.len(),
    decreases s.len() - i,
{
    if i + 3 <= s.len() && !sep_at(s, i) {
        lemma_find_sep_from(s, i + 1);
    }
}

/// Splitting `s` on `" = "` yields exactly two parts: one separator occurs,
/// and none occurs in the remainder after it.
pub open spec fn splits_in_two(s: Seq<char>) -> bool {
    let j = find_sep_from(s, 0);
    sep_at(s, j) && !sep_at(s, find_sep_from(s, j + 3))
}

/// The part of `s` before its first `" = "`.
pub open spec fn left_part(s: Seq<char>) -> Seq<char> {
    s.subrange(0, find_sep_from(s, 0))
}

/// The part of `s` after its first `" = "`.
pub open spec fn right_part(s: Seq<char>) -> Seq<char> {
    s.subrange(find_sep_from(s, 0) + 3, s.len() as int)
}

fn find_sep_exec(s: &str, n: usize, i: usize) -> (r: usize)
    requires
        n == s@.len(),
        i <= n,
    ensures
        r == find_sep_from(s@, i as int),
        i <= r <= n,
{
    let mut cur = i;
    loop
        invariant_except_break
            n == s@.len(),
            i <= cur <= n,
            find_sep_from(s@, i as int) == find_sep_from(s@, cur as int),
        ensures
            cur == find_sep_from(s@, i as int),
            i <= cur <= n,
        decreases n - cur,
    {
        if n < 3 || cur > n - 3 {
            proof {
                assert(find_sep_from(s@, cur as int) == n as int);
            }
            cur = n;
            break;
        }
        if s.get_char(cur) == ' ' && s.get_char(cur + 1) == '=' && s.get_char(cur + 2) == ' ' {
            proof {
                assert(sep_at(s@, cur as int));
            }
            break;
        }
        proof {
            assert(!sep_at(s@, cur as int));
        }
        cur += 1;
    }
    cur
}

/// Split a keymap line on `" = "`. Returns the two parts when the line
/// splits into exactly two, and `None` otherwise.
pub fn split_eq_sep(s: &str) -> (r: Option<(String, String)>)
    ensures
        match r {
            Some(parts) => splits_in_two(s@) && parts.0@ == left_part(s@) && parts.1@
                == right_part(s@),
            None => !splits_in_two(s@),
        },
{
    let n = s.unicode_len();
    let j = find_sep_exec(s, n, 0);
    proof {
        lemma_find_sep_from(s@, 0);
    }
    if n < 3 || j > n - 3 {
        proof {
            assert(!sep_at(s@, j as int));
            if splits_in_two(s@) {
                assert(sep_at(s@, find_sep_from(s@, 0)));
            }
        }
        return None;
    }
    proof {
        assert(sep_at(s@, j as int));
    }
    let j2 = find_sep_exec(s, n, j + 3);
    proof {
        lemma_find_sep_from(s@, j as int + 3);
    }
    if j2 <= n - 3 {
        proof {
            assert(sep_at(s@, find_sep_from(s@, j as int + 3)));
        }
        return None;
    }
    proof {
        assert(!sep_at(s@, find_sep_from(s@, j as int + 3)));
        assert(splits_in_two(s@));
    }
    let l = s.substring_char(0, j);
    let rgt = s.substring_char(j + 3, n);
    Some((l.to_owned(), rgt.to_owned()))
}

fn line_end_exec(s: &str, n: usize, i: usize) -> (r: usize)
    requires
        n == s@.len(),
        i <= n,
    ensures
        r == line_end_from(s@, i as int),
        i <= r <= n,
{
    let mut cur = i;
    while cur < n && s.get_char(cur) != '\n'
        invariant
            n == s@.len(),
            i <= cur <= n,
            line_end_from(s@, i as int) == line_end_from(s@, cur as int),
        decreases n - cur,
    {
        cur += 1;
    }
    proof {
        lemma_line_end_from(s@, i as int);
    }
    cur
}

/// Split a text into its lines on `'\n'`.
pub fn split_lines(s: &str) -> (r: Vec<String>)
    ensures
        r.deep_view() == lines_of(s@),
{
    let n = s.unicode_len();
    let mut r: Vec<String> = Vec::new();
    let mut i: usize = 0;
    loop
        invariant_except_break
            n == s@.len(),
            i <= n,
            r.deep_view() + lines_from(s@, i as int) == lines_of(s@),
        ensures
            r.deep_view() == lines_of(s@),
        decreases n - i,
    {
        let ghost prev = r.deep_view();
        let ghost i0 = i as int;
        let e = line_end_exec(s, n, i);
        let t = s.substring_char(i, e);
        r.push(t.to_owned());
        proof {
            assert(r.deep_view() =~= prev.push(s@.subrange(i0, e as int)));
        }
        if e >= n {
            proof {
                assert(lines_from(s@, i0) =~= seq![s@.subrange(i0, n as int)]);
                assert(r.deep_view() =~= lines_of(s@));
            }
            break;
        }
        i = e + 1;
        proof {
            assert(lines_from(s@, i0) == seq![s@.subrange(i0, e as int)] + lines_from(
                s@,
                i as int,
            ));
            assert(r.deep_view() + lines_from(s@, i as int) =~= lines_of(s@));
        }
    }
    r
}

} // verus!
