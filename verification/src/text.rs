//! Utilities over character sequences: counting, searching, trimming,
//! tokenizing and substring tests.  These are the building blocks of the
//! catalog loader and the board logic.

use vstd::prelude::*;

verus! {

/// Number of occurrences of `ch` in `s`.
pub open spec fn count_ch(s: Seq<char>, ch: char) -> nat
    decreases s.len(),
{
    if s.len() == 0 {
        0
    } else {
        count_ch(s.drop_last(), ch) + if s.last() == ch {
            1nat
        } else {
            0nat
        }
    }
}

/// Appending one character adds one to the count exactly when it matches.
pub proof fn lemma_count_ch_push(s: Seq<char>, c: char, ch: char)
    ensures
        count_ch(s.push(c), ch) == count_ch(s, ch) + if c == ch {
            1nat
        } else {
            0nat
        },
{
    assert(s.push(c).drop_last() =~= s);
    assert(s.push(c).last() == c);
}

/// The count over a prefix never exceeds the count over the whole sequence.
pub proof fn lemma_count_ch_prefix_le(s: Seq<char>, i: int, ch: char)
    requires
        0 <= i <= s.len(),
    ensures
        count_ch(s.subrange(0, i), ch) <= count_ch(s, ch),
    decreases s.len() - i,
{
    if i == s.len() {
        assert(s.subrange(0, i) =~= s);
    } else {
        lemma_count_ch_prefix_le(s, i + 1, ch);
        assert(s.subrange(0, i + 1).drop_last() =~= s.subrange(0, i));
        assert(count_ch(s.subrange(0, i), ch) <= count_ch(s.subrange(0, i + 1), ch));
    }
}

/// The Unicode `White_Space` characters, as `str::trim` recognizes them.
pub open spec fn spec_is_whitespace(c: char) -> bool {
    c == ' ' || c == '\t' || c == '\n' || c == '\r' || c == '\u{b}' || c == '\u{c}' || c
        == '\u{85}' || c == '\u{a0}' || c == '\u{1680}' || ('\u{2000}' <= c && c <= '\u{200a}') || c
        == '\u{2028}' || c == '\u{2029}' || c == '\u{202f}' || c == '\u{205f}' || c == '\u{3000}'
}

/// Decides `spec_is_whitespace`.
pub fn is_whitespace_char(c: char) -> (r: bool)
    ensures
        r == spec_is_whitespace(c),
{
    c == ' ' || c == '\t' || c == '\n' || c == '\r' || c == '\u{b}' || c == '\u{c}' || c
        == '\u{85}' || c == '\u{a0}' || c == '\u{1680}' || ('\u{2000}' <= c && c <= '\u{200a}') || c
        == '\u{2028}' || c == '\u{2029}' || c == '\u{202f}' || c == '\u{205f}' || c == '\u{3000}'
}

/// Index of the first occurrence of `ch` in `s` at or after `from`.
pub open spec fn first_index_from(s: Seq<char>, ch: char, from: int) -> Option<int>
    decreases s.len() - from,
{
    if from < 0 || from >= s.len() {
        None
    } else if s[from] == ch {
        Some(from)
    } else {
        first_index_from(s, ch, from + 1)
    }
}

/// Finds the first occurrence of `ch` at or after index `from`.
pub fn find_char(s: &Vec<char>, ch: char, from: usize) -> (r: Option<usize>)
    ensures
        match r {
            Some(i) => first_index_from(s@, ch, from as int) == Some(i as int),
            None => first_index_from(s@, ch, from as int) is None,
        },
{
    let mut i: usize = from;
    while i < s.len()
        invariant
            from <= i,
            first_index_from(s@, ch, from as int) == first_index_from(s@, ch, i as int),
        decreases s@.len() - i,
    {
        if s[i] == ch {
            return Some(i);
        }
        i = i + 1;
    }
    None
}

/// `s` with leading whitespace removed.
pub open spec fn trim_start(s: Seq<char>) -> Seq<char>
    decreases s.len(),
{
    if s.len() > 0 && spec_is_whitespace(s[0]) {
        trim_start(s.drop_first())
    } else {
        s
    }
}

/// `s` with trailing whitespace removed.
pub open spec fn trim_end(s: Seq<char>) -> Seq<char>
    decreases s.len(),
{
    if s.len() > 0 && spec_is_whitespace(s.last()) {
        trim_end(s.drop_last())
    } else {
        s
    }
}

/// `s` with both leading and trailing whitespace removed, as `str::trim`.
pub open spec fn spec_trim(s: Seq<char>) -> Seq<char> {
    trim_end(trim_start(s))
}

/// Copies `s[lo..hi]` into a fresh vector.
pub fn copy_range(s: &Vec<char>, lo: usize, hi: usize) -> (r: Vec<char>)
    requires
        lo <= hi <= s@.len(),
    ensures
        r@ == s@.subrange(lo as int, hi as int),
{
    let mut r: Vec<char> = Vec::new();
    let mut i: usize = lo;
    while i < hi
        invariant
            lo <= i <= hi <= s@.len(),
            r@ == s@.subrange(lo as int, i as int),
        decreases hi - i,
    {
        r.push(s[i]);
        proof {
            assert(s@.subrange(lo as int, i + 1) =~= s@.subrange(lo as int, i as int).push(
                s@[i as int],
            ));
        }
        i = i + 1;
    }
    r
}

/// Removes leading and trailing whitespace, as `str::trim` does.
pub fn trim_chars(s: &Vec<char>) -> (r: Vec<char>)
    ensures
        r@ == spec_trim(s@),
{
    let n = s.len();
    proof {
        assert(s@.subrange(0, n as int) =~= s@);
    }
    let mut a: usize = 0;
    while a < n && is_whitespace_char(s[a])
        invariant
            0 <= a <= n == s@.len(),
            trim_start(s@) == trim_start(s@.subrange(a as int, n as int)),
        decreases n - a,
    {
        proof {
            assert(s@.subrange(a as int, n as int).drop_first() =~= s@.subrange(a + 1, n as int));
        }
        a = a + 1;
    }
    proof {
        assert(trim_start(s@) =~= s@.subrange(a as int, n as int));
    }
    let mut b: usize = n;
    while b > a && is_whitespace_char(s[b - 1])
        invariant
            0 <= a <= b <= n == s@.len(),
            trim_start(s@) == s@.subrange(a as int, n as int),
            trim_end(s@.subrange(a as int, n as int)) == trim_end(s@.subrange(a as int, b as int)),
        decreases b,
    {
        proof {
            assert(s@.subrange(a as int, b as int).drop_last() =~= s@.subrange(a as int, b - 1));
        }
        b = b - 1;
    }
    proof {
        assert(trim_end(s@.subrange(a as int, b as int)) =~= s@.subrange(a as int, b as int));
    }
    copy_range(s, a, b)
}

/// The prefix of `s` up to (not including) its first space, as
/// `str::split(' ').next()` yields it.
pub open spec fn token_to_space(s: Seq<char>) -> Seq<char> {
    match first_index_from(s, ' ', 0) {
        Some(i) => s.subrange(0, i),
        None => s,
    }
}

/// Returns the prefix of `s` up to its first space character.
pub fn take_token(s: &Vec<char>) -> (r: Vec<char>)
    ensures
        r@ == token_to_space(s@),
{
    match find_char(s, ' ', 0) {
        Some(i) => {
            proof {
                lemma_first_index_in_range(s@, ' ', 0);
            }
            copy_range(s, 0, i)
        },
        None => {
            proof {
                assert(s@.subrange(0, s@.len() as int) =~= s@);
            }
            copy_range(s, 0, s.len())
        },
    }
}

/// A found index lies within the searched range and holds the character.
pub proof fn lemma_first_index_in_range(s: Seq<char>, ch: char, from: int)
    requires
        first_index_from(s, ch, from) is Some,
    ensures
        from <= first_index_from(s, ch, from)->0 < s.len(),
        s[first_index_from(s, ch, from)->0] == ch,
    decreases s.len() - from,
{
    if !(from < 0 || from >= s.len()) && s[from] != ch {
        lemma_first_index_in_range(s, ch, from + 1);
    }
}

/// `pat` occurs in `line` starting at index `i`.
pub open spec fn contains_at(line: Seq<char>, pat: Seq<char>, i: int) -> bool {
    0 <= i && i + pat.len() <= line.len() && line.subrange(i, i + pat.len()) == pat
}

/// `pat` occurs somewhere in `line` as a contiguous substring.
pub open spec fn contains_seq(line: Seq<char>, pat: Seq<char>) -> bool {
    exists|i: int| contains_at(line, pat, i)
}

/// Tests whether `pat` occurs in `line` starting at index `i`.
fn matches_at(line: &Vec<char>, pat: &Vec<char>, i: usize) -> (r: bool)
    requires
        i + pat@.len() <= line@.len(),
    ensures
        r == contains_at(line@, pat@, i as int),
{
    let n = line.len();
    let m = pat.len();
    let mut j: usize = 0;
    while j < m
        invariant
            0 <= j <= m == pat@.len(),
            i + m <= n == line@.len(),
            forall|k: int| 0 <= k < j ==> line@[i + k] == pat@[k],
        decreases m - j,
    {
        if line[i + j] != pat[j] {
            proof {
                assert(line@.subrange(i as int, i + pat@.len())[j as int] == line@[i + j]);
            }
            return false;
        }
        j = j + 1;
    }
    proof {
        assert(line@.subrange(i as int, i + pat@.len()) =~= pat@);
    }
    true
}

/// Tests whether `pat` occurs anywhere in `line`, as `str::contains`.
pub fn contains_pattern(line: &Vec<char>, pat: &Vec<char>) -> (r: bool)
    ensures
        r == contains_seq(line@, pat@),
{
    let n = line.len();
    let m = pat.len();
    if m > n {
        proof {
            assert forall|i: int| !contains_at(line@, pat@, i) by {}
        }
        return false;
    }
    if m == 0 {
        proof {
            assert(line@.subrange(0, 0) =~= pat@);
            assert(contains_at(line@, pat@, 0));
        }
        return true;
    }
    let mut i: usize = 0;
    while i <= n - m
        invariant
            0 < m <= n == line@.len(),
            m == pat@.len(),
            0 <= i <= n - m + 1,
            forall|k: int| 0 <= k < i ==> !contains_at(line@, pat@, k),
        decreases n - i,
    {
        if matches_at(line, pat, i) {
            return true;
        }
        i = i + 1;
    }
    proof {
        assert forall|k: int| !contains_at(line@, pat@, k) by {}
    }
    false
}

/// Tests whether `line` starts with `pat`, as `str::starts_with`.
pub fn starts_with_pattern(line: &Vec<char>, pat: &Vec<char>) -> (r: bool)
    ensures
        r == contains_at(line@, pat@, 0),
{
    if pat.len() > line.len() {
        return false;
    }
    matches_at(line, pat, 0)
}

/// A catalog grid-row cell character: filled or empty.
pub open spec fn keep_cell(c: char) -> bool {
    c == 'X' || c == '.'
}

/// The grid row read from a text line: only 'X' and '.' are kept.
pub open spec fn row_of_line(line: Seq<char>) -> Seq<char>
    decreases line.len(),
{
    if line.len() == 0 {
        Seq::empty()
    } else {
        let r = row_of_line(line.drop_last());
        if keep_cell(line.last()) {
            r.push(line.last())
        } else {
            r
        }
    }
}

/// Extracts the grid row of a text line, keeping only 'X' and '.'.
pub fn extract_row(line: &Vec<char>) -> (r: Vec<char>)
    ensures
        r@ == row_of_line(line@),
{
    let mut r: Vec<char> = Vec::new();
    let mut i: usize = 0;
    while i < line.len()
        invariant
            0 <= i <= line@.len(),
            r@ == row_of_line(line@.subrange(0, i as int)),
        decreases line@.len() - i,
    {
        let c = line[i];
        if c == 'X' || c == '.' {
            r.push(c);
        }
        proof {
            assert(line@.subrange(0, i + 1).drop_last() =~= line@.subrange(0, i as int));
            assert(line@.subrange(0, i + 1).last() == line@[i as int]);
        }
        i = i + 1;
    }
    proof {
        assert(line@.subrange(0, line@.len() as int) =~= line@);
    }
    r
}

/// Keeping only 'X' and '.' does not change how many 'X' a line holds.
pub proof fn lemma_row_keeps_filled_count(line: Seq<char>)
    ensures
        count_ch(row_of_line(line), 'X') == count_ch(line, 'X'),
    decreases line.len(),
{
    if line.len() > 0 {
        lemma_row_keeps_filled_count(line.drop_last());
        if keep_cell(line.last()) {
            lemma_count_ch_push(row_of_line(line.drop_last()), line.last(), 'X');
        }
    }
}

} // verus!
