//! Lines and whitespace-separated tokens of a text, over its bytes.

use vstd::prelude::*;
use vstd::slice::slice_subrange;

verus! {

/// Whether three bytes encode one of the whitespace characters above U+07FF:
/// U+1680, U+2000 to U+200A, U+2028, U+2029, U+202F, U+205F, U+3000.
pub open spec fn is_wide_space(a: u8, b: u8, c: u8) -> bool {
    ||| (a == 0xe1 && b == 0x9a && c == 0x80)
    ||| (a == 0xe2 && b == 0x80 && ((0x80 <= c && c <= 0x8a) || c == 0xa8 || c == 0xa9 || c == 0xaf))
    ||| (a == 0xe2 && b == 0x81 && c == 0x9f)
    ||| (a == 0xe3 && b == 0x80 && c == 0x80)
}

/// The number of bytes of the whitespace character that starts at `i`, or 0
/// where none starts there. Whitespace is what Unicode calls White_Space:
/// space, U+0009 to U+000D, U+0085, U+00A0 and the characters of
/// [`is_wide_space`], each in its UTF-8 encoding.
pub open spec fn space_width(s: Seq<u8>, i: int) -> int {
    if i < 0 || i >= s.len() {
        0
    } else if s[i] == 0x20 || (0x09 <= s[i] && s[i] <= 0x0d) {
        1
    } else if i + 1 < s.len() && s[i] == 0xc2 && (s[i + 1] == 0x85 || s[i + 1] == 0xa0) {
        2
    } else if i + 2 < s.len() && is_wide_space(s[i], s[i + 1], s[i + 2]) {
        3
    } else {
        0
    }
}

/// The end of the token that holds byte `i`: the first index from `i` on at
/// which a whitespace character starts, or the length of `s`.
pub open spec fn word_end(s: Seq<u8>, i: int) -> int
    decreases s.len() - i,
{
    if i >= s.len() || space_width(s, i) > 0 {
        i
    } else {
        word_end(s, i + 1)
    }
}

/// A token ends at or after its start and within the text, and after its
/// start where a byte of a token stands there.
pub proof fn lemma_word_end_bounds(s: Seq<u8>, i: int)
    requires
        0 <= i <= s.len(),
    ensures
        i <= word_end(s, i) <= s.len(),
        i < s.len() && space_width(s, i) == 0 ==> i < word_end(s, i),
    decreases s.len() - i,
{
    if i < s.len() && space_width(s, i) == 0 {
        lemma_word_end_bounds(s, i + 1);
    }
}

/// The tokens of `s` that start at or after `i`, in order: the maximal runs
/// of bytes in which no whitespace character starts.
pub open spec fn tokens_from(s: Seq<u8>, i: int) -> Seq<Seq<u8>>
    decreases s.len() - i,
{
    if i < 0 || i >= s.len() {
        Seq::empty()
    } else if space_width(s, i) > 0 {
        tokens_from(s, i + space_width(s, i))
    } else {
        proof {
            lemma_word_end_bounds(s, i);
        }
        seq![s.subrange(i, word_end(s, i))] + tokens_from(s, word_end(s, i))
    }
}

/// No token is empty.
pub proof fn lemma_tokens_not_empty(s: Seq<u8>, i: int, k: int)
    requires
        0 <= i,
        0 <= k < tokens_from(s, i).len(),
    ensures
        tokens_from(s, i)[k].len() > 0,
    decreases s.len() - i,
{
    if i < s.len() {
        if space_width(s, i) > 0 {
            lemma_tokens_not_empty(s, i + space_width(s, i), k);
        } else {
            lemma_word_end_bounds(s, i);
            if k > 0 {
                lemma_tokens_not_empty(s, word_end(s, i), k - 1);
            }
        }
    }
}

/// The whitespace-separated tokens of a line.
pub open spec fn tokens_of(s: Seq<u8>) -> Seq<Seq<u8>> {
    tokens_from(s, 0)
}

/// The contents of borrowed byte strings, one for one.
pub open spec fn contents(v: Seq<&[u8]>) -> Seq<Seq<u8>> {
    Seq::new(v.len(), |i: int| v[i]@)
}

/// The end of the line that holds byte `i`: the index of the first line feed
/// from `i` on, or the length of `t`.
pub open spec fn line_end(t: Seq<u8>, i: int) -> int
    decreases t.len() - i,
{
    if i >= t.len() || t[i] == 0x0a {
        i
    } else {
        line_end(t, i + 1)
    }
}

/// A line ends at or after its start and within the text.
pub proof fn lemma_line_end_bounds(t: Seq<u8>, i: int)
    requires
        0 <= i <= t.len(),
    ensures
        i <= line_end(t, i) <= t.len(),
    decreases t.len() - i,
{
    if i < t.len() && t[i] != 0x0a {
        lemma_line_end_bounds(t, i + 1);
    }
}

/// The lines of `t` that start at or after `i`. A line ends before a line
/// feed or at the end of the text; the text after the last line feed is a
/// line only where it is not empty. A carriage return before the line feed
/// stays with its line: it is whitespace, so no token holds it.
pub open spec fn lines_from(t: Seq<u8>, i: int) -> Seq<Seq<u8>>
    decreases t.len() + 1 - i,
{
    if i < 0 || i >= t.len() {
        Seq::empty()
    } else {
        proof {
            lemma_line_end_bounds(t, i);
        }
        seq![t.subrange(i, line_end(t, i))] + lines_from(t, line_end(t, i) + 1)
    }
}

/// The lines of a text.
pub open spec fn lines_of(t: Seq<u8>) -> Seq<Seq<u8>> {
    lines_from(t, 0)
}

/// Measures the whitespace character at `i`.
pub fn space_width_at(s: &[u8], i: usize) -> (w: usize)
    requires
        i < s.len(),
    ensures
        w == space_width(s@, i as int),
        w <= 3,
        i + w <= s.len(),
{
    let n: usize = s.len();
    let a: u8 = s[i];
    if a == 0x20 || (0x09 <= a && a <= 0x0d) {
        1
    } else if n - i > 1 && a == 0xc2 && (s[i + 1] == 0x85 || s[i + 1] == 0xa0) {
        2
    } else if n - i > 2 {
        let b: u8 = s[i + 1];
        let c: u8 = s[i + 2];
        if (a == 0xe1 && b == 0x9a && c == 0x80) || (a == 0xe2 && b == 0x80 && ((0x80 <= c && c
            <= 0x8a) || c == 0xa8 || c == 0xa9 || c == 0xaf)) || (a == 0xe2 && b == 0x81 && c
            == 0x9f) || (a == 0xe3 && b == 0x80 && c == 0x80) {
            3
        } else {
            0
        }
    } else {
        0
    }
}

/// Finds the end of the line that starts at `start`.
pub fn find_line_end(t: &[u8], start: usize) -> (end: usize)
    requires
        start <= t.len(),
    ensures
        end == line_end(t@, start as int),
        start <= end <= t.len(),
{
    let n: usize = t.len();
    let mut i: usize = start;
    while i < n && t[i] != 0x0a
        invariant
            start <= i <= n,
            n == t.len(),
            line_end(t@, start as int) == line_end(t@, i as int),
        decreases n - i,
    {
        i += 1;
    }
    i
}

/// Decides whether two byte strings hold the same bytes.
pub fn bytes_eq(a: &[u8], b: &[u8]) -> (r: bool)
    ensures
        r == (a@ == b@),
{
    let n: usize = a.len();
    if b.len() != n {
        return false;
    }
    let mut i: usize = 0;
    while i < n
        invariant
            i <= n,
            n == a.len(),
            n == b.len(),
            forall|k: int| 0 <= k < i ==> a@[k] == b@[k],
        decreases n - i,
    {
        if a[i] != b[i] {
            return false;
        }
        i += 1;
    }
    proof {
        assert(a@ =~= b@);
    }
    true
}

/// Splits a line into its tokens, which borrow from the line.
pub fn split_tokens<'a>(line: &'a [u8]) -> (r: Vec<&'a [u8]>)
    ensures
        contents(r@) == tokens_of(line@),
{
    let n: usize = line.len();
    let mut out: Vec<&'a [u8]> = Vec::new();
    let mut i: usize = 0;
    while i < n
        invariant
            i <= n,
            n == line.len(),
            tokens_of(line@) == contents(out@) + tokens_from(line@, i as int),
        decreases n - i,
    {
        let w: usize = space_width_at(line, i);
        if w > 0 {
            i += w;
        } else {
            let start: usize = i;
            i += 1;
            while i < n && space_width_at(line, i) == 0
                invariant
                    start < i <= n,
                    n == line.len(),
                    word_end(line@, start as int) == word_end(line@, i as int),
                decreases n - i,
            {
                i += 1;
            }
            let token: &'a [u8] = slice_subrange(line, start, i);
            proof {
                assert(contents(out@.push(token)) == contents(out@) + seq![token@]);
            }
            out.push(token);
        }
    }
    proof {
        assert(contents(out@) + Seq::<Seq<u8>>::empty() == contents(out@));
    }
    out
}

} // verus!
