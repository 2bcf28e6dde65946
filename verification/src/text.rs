//! Verified text utilities: whitespace trimming, separator splitting
//! and line splitting.
//!
//! Whitespace here means the ASCII blank characters (space, tab, line
//! feed, carriage return, vertical tab, form feed).  Lines follow the
//! usual text convention: they are separated by `\n`, a trailing `\r`
//! belongs to the separator, and a final `\n` ends the last line
//! rather than opening an empty one.

use vstd::prelude::*;

verus! {

/// Whether `c` is an ASCII blank character.
pub open spec fn is_space(c: char) -> bool {
    c == ' ' || c == '\t' || c == '\n' || c == '\r' || c == '\u{b}' || c == '\u{c}'
}

/// Number of leading blank characters of `s`.
pub open spec fn ltrim_count(s: Seq<char>) -> int
    decreases s.len(),
{
    if s.len() > 0 && is_space(s[0]) {
        1 + ltrim_count(s.drop_first())
    } else {
        0
    }
}

/// Number of trailing blank characters of `s`.
pub open spec fn rtrim_count(s: Seq<char>) -> int
    decreases s.len(),
{
    if s.len() > 0 && is_space(s.last()) {
        1 + rtrim_count(s.drop_last())
    } else {
        0
    }
}

/// `s` without its leading and trailing blank characters.
pub open spec fn trim_of(s: Seq<char>) -> Seq<char> {
    let r = s.skip(ltrim_count(s));
    r.take(r.len() - rtrim_count(r))
}

pub proof fn lemma_ltrim_count_is(s: Seq<char>, i: int)
    requires
        0 <= i <= s.len(),
        forall|j: int| 0 <= j < i ==> is_space(#[trigger] s[j]),
        i < s.len() ==> !is_space(s[i]),
    ensures
        ltrim_count(s) == i,
    decreases s.len(),
{
    if s.len() > 0 && is_space(s[0]) {
        lemma_ltrim_count_is(s.drop_first(), i - 1);
    }
}

pub proof fn lemma_rtrim_count_is(s: Seq<char>, i: int)
    requires
        0 <= i <= s.len(),
        forall|j: int| s.len() - i <= j < s.len() ==> is_space(#[trigger] s[j]),
        i < s.len() ==> !is_space(s[s.len() - i - 1]),
    ensures
        rtrim_count(s) == i,
    decreases s.len(),
{
    if s.len() > 0 && is_space(s.last()) {
        lemma_rtrim_count_is(s.drop_last(), i - 1);
    }
}

/// `s` without surrounding ASCII blanks, per [`trim_of`].
pub fn trim(s: &str) -> (r: &str)
    ensures
        r@ == trim_of(s@),
{
    let n = s.unicode_len();
    let mut lo: usize = 0;
    while lo < n && is_space_exec(s.get_char(lo))
        invariant
            0 <= lo <= n == s@.len(),
            forall|j: int| 0 <= j < lo ==> is_space(#[trigger] s@[j]),
        decreases n - lo,
    {
        lo = lo + 1;
    }
    proof {
        lemma_ltrim_count_is(s@, lo as int);
    }
    let mut hi: usize = n;
    while hi > lo && is_space_exec(s.get_char(hi - 1))
        invariant
            lo <= hi <= n == s@.len(),
            forall|j: int| hi <= j < n ==> is_space(#[trigger] s@[j]),
        decreases hi,
    {
        hi = hi - 1;
    }
    proof {
        let rest = s@.skip(lo as int);
        if lo < n {
            // the first kept character is not blank, so the right trim
            // stops exactly at `hi`
            lemma_rtrim_count_is(rest, n - hi);
            assert(rest.take(rest.len() - (n - hi)) =~= s@.subrange(lo as int, hi as int));
        } else {
            assert(rest =~= Seq::<char>::empty());
            assert(s@.subrange(lo as int, hi as int) =~= Seq::<char>::empty());
        }
    }
    s.substring_char(lo, hi)
}

/// Executable test for [`is_space`].
pub fn is_space_exec(c: char) -> (r: bool)
    ensures
        r == is_space(c),
{
    c == ' ' || c == '\t' || c == '\n' || c == '\r' || c == '\u{b}' || c == '\u{c}'
}

/// Index of the first occurrence of `c` in `s`, or `s.len()`.
pub open spec fn char_index(s: Seq<char>, c: char) -> int
    decreases s.len(),
{
    if s.len() == 0 {
        0
    } else if s[0] == c {
        0
    } else {
        1 + char_index(s.drop_first(), c)
    }
}

pub proof fn lemma_char_index_is(s: Seq<char>, c: char, i: int)
    requires
        0 <= i <= s.len(),
        forall|j: int| 0 <= j < i ==> s[j] != c,
        i < s.len() ==> s[i] == c,
    ensures
        char_index(s, c) == i,
    decreases s.len(),
{
    if s.len() > 0 && s[0] != c {
        lemma_char_index_is(s.drop_first(), c, i - 1);
    }
}

/// What [`char_index`] finds: the first occurrence when one exists.
pub proof fn lemma_char_index_found(s: Seq<char>, c: char)
    ensures
        0 <= char_index(s, c) <= s.len(),
        char_index(s, c) < s.len() ==> s[char_index(s, c)] == c,
        forall|j: int| 0 <= j < char_index(s, c) ==> s[j] != c,
    decreases s.len(),
{
    if s.len() > 0 && s[0] != c {
        lemma_char_index_found(s.drop_first(), c);
        assert forall|j: int| 0 <= j < char_index(s, c) implies s[j] != c by {
            if j > 0 {
                assert(s.drop_first()[j - 1] == s[j]);
            }
        }
    }
}

/// The pieces of `s` between occurrences of the separator `c`: one
/// piece more than there are separators, empty pieces kept.
pub open spec fn split_of(s: Seq<char>, c: char) -> Seq<Seq<char>>
    decreases s.len(),
    via split_of_decreases
{
    let i = char_index(s, c);
    if i == s.len() {
        seq![s]
    } else {
        seq![s.take(i)] + split_of(s.skip(i + 1), c)
    }
}

#[via_fn]
proof fn split_of_decreases(s: Seq<char>, c: char) {
    lemma_char_index_le_len(s, c);
}

/// A split has one piece more than there are separators, never none.
pub proof fn lemma_split_of_nonempty(s: Seq<char>, c: char)
    ensures
        split_of(s, c).len() >= 1,
{
}

/// Splits `s` at every occurrence of `c`, per [`split_of`].
pub fn split(s: &str, c: char) -> (r: Vec<String>)
    ensures
        r.deep_view() == split_of(s@, c),
{
    let n = s.unicode_len();
    let mut r: Vec<String> = Vec::new();
    let mut pos: usize = 0;
    proof {
        assert(s@.skip(0) =~= s@);
        assert(r.deep_view() =~= Seq::<Seq<char>>::empty());
        assert(r.deep_view() + split_of(s@, c) =~= split_of(s@, c));
    }
    let mut done: bool = false;
    while !done
        invariant
            0 <= pos <= n,
            n == s@.len(),
            !done ==> split_of(s@, c) == r.deep_view() + split_of(s@.skip(pos as int), c),
            done ==> split_of(s@, c) == r.deep_view(),
        decreases n - pos, (if done {
            0int
        } else {
            1int
        }),
    {
        // find the next separator
        let mut i: usize = pos;
        while i < n && s.get_char(i) != c
            invariant
                pos <= i <= n == s@.len(),
                forall|j: int| pos <= j < i ==> s@[j] != c,
            decreases n - i,
        {
            i = i + 1;
        }
        proof {
            lemma_char_index_is(s@.skip(pos as int), c, i - pos);
        }
        let piece = s.substring_char(pos, i);
        let owned = piece.to_owned();
        r.push(owned);
        proof {
            let rest = s@.skip(pos as int);
            assert(rest.take(i - pos) =~= s@.subrange(pos as int, i as int));
            if i < n {
                assert(rest.skip(i - pos + 1) =~= s@.skip(i as int + 1));
            }
            assert(r.deep_view() =~= r.deep_view().subrange(0, r.deep_view().len() - 1).push(
                s@.subrange(pos as int, i as int),
            ));
        }
        if i < n {
            proof {
                let old_dv = r.deep_view().subrange(0, r.deep_view().len() - 1);
                assert(old_dv + (seq![s@.subrange(pos as int, i as int)] + split_of(
                    s@.skip(i as int + 1),
                    c,
                )) =~= r.deep_view() + split_of(s@.skip(i as int + 1), c));
            }
            pos = i + 1;
        } else {
            proof {
                let rest = s@.skip(pos as int);
                assert(char_index(rest, c) == rest.len());
                assert(split_of(rest, c) == seq![rest]);
                assert(rest =~= s@.subrange(pos as int, i as int));
                let old_dv = r.deep_view().subrange(0, r.deep_view().len() - 1);
                assert(old_dv + seq![rest] =~= r.deep_view());
            }
            done = true;
        }
    }
    r
}

/// Character-wise string equality.
pub fn str_eq(a: &str, b: &str) -> (r: bool)
    ensures
        r == (a@ == b@),
{
    let n = a.unicode_len();
    if n != b.unicode_len() {
        proof {
            if a@ == b@ {
                assert(a@.len() == b@.len());
            }
        }
        return false;
    }
    let mut i: usize = 0;
    while i < n
        invariant
            0 <= i <= n,
            n == a@.len() == b@.len(),
            forall|j: int| 0 <= j < i ==> a@[j] == b@[j],
        decreases n - i,
    {
        if a.get_char(i) != b.get_char(i) {
            proof {
                assert(a@[i as int] != b@[i as int]);
            }
            return false;
        }
        i = i + 1;
    }
    proof {
        assert(a@ =~= b@);
    }
    true
}

/// `s` without a final `\r`, used to drop the carriage-return half of
/// a `\r\n` separator.
pub open spec fn strip_cr(s: Seq<char>) -> Seq<char> {
    if s.len() > 0 && s.last() == '\r' {
        s.drop_last()
    } else {
        s
    }
}

/// The lines of `s`: pieces separated by `\n` with a trailing `\r`
/// removed; a final `\n` closes the last line instead of opening an
/// empty one.
pub open spec fn lines_of(s: Seq<char>) -> Seq<Seq<char>>
    decreases s.len(),
    via lines_of_decreases
{
    if s.len() == 0 {
        Seq::empty()
    } else {
        let i = char_index(s, '\n');
        if i == s.len() {
            seq![strip_cr(s)]
        } else {
            seq![strip_cr(s.take(i))] + lines_of(s.skip(i + 1))
        }
    }
}

#[via_fn]
proof fn lines_of_decreases(s: Seq<char>) {
    lemma_char_index_le_len(s, '\n');
}

/// There is at most one line per character, plus a last unterminated
/// one.
pub proof fn lemma_lines_of_len(s: Seq<char>)
    ensures
        lines_of(s).len() <= s.len() + 1,
    decreases s.len(),
{
    if s.len() > 0 {
        let i = char_index(s, '\n');
        lemma_char_index_le_len(s, '\n');
        if i < s.len() {
            lemma_lines_of_len(s.skip(i + 1));
        }
    }
}

pub proof fn lemma_char_index_le_len(s: Seq<char>, c: char)
    ensures
        0 <= char_index(s, c) <= s.len(),
    decreases s.len(),
{
    if s.len() > 0 && s[0] != c {
        lemma_char_index_le_len(s.drop_first(), c);
    }
}

/// Splits `s` into its lines, per [`lines_of`].
pub fn split_lines(s: &str) -> (r: Vec<String>)
    ensures
        r.deep_view() == lines_of(s@),
{
    let n = s.unicode_len();
    let mut r: Vec<String> = Vec::new();
    let mut pos: usize = 0;
    proof {
        assert(s@.skip(0) =~= s@);
        assert(r.deep_view() =~= Seq::<Seq<char>>::empty());
        assert(r.deep_view() + lines_of(s@) =~= lines_of(s@));
    }
    while pos < n
        invariant
            0 <= pos <= n,
            n == s@.len(),
            lines_of(s@) == r.deep_view() + lines_of(s@.skip(pos as int)),
        decreases n - pos,
    {
        // find the next line feed
        let mut i: usize = pos;
        while i < n && s.get_char(i) != '\n'
            invariant
                pos <= i <= n == s@.len(),
                forall|j: int| pos <= j < i ==> s@[j] != '\n',
            decreases n - i,
        {
            i = i + 1;
        }
        proof {
            lemma_char_index_is(s@.skip(pos as int), '\n', i - pos);
        }
        // drop a carriage return before the line feed or the end
        let line_end: usize = if i > pos && s.get_char(i - 1) == '\r' {
            i - 1
        } else {
            i
        };
        let piece = s.substring_char(pos, line_end);
        let owned = piece.to_owned();
        r.push(owned);
        proof {
            let rest = s@.skip(pos as int);
            let ri = i - pos;
            if ri < rest.len() {
                assert(strip_cr(rest.take(ri)) =~= s@.subrange(pos as int, line_end as int));
                assert(rest.skip(ri + 1) =~= s@.skip(i as int + 1));
            } else {
                assert(strip_cr(rest) =~= s@.subrange(pos as int, line_end as int));
            }
            let old_dv = r.deep_view().subrange(0, r.deep_view().len() - 1);
            assert(r.deep_view() =~= old_dv.push(s@.subrange(pos as int, line_end as int)));
            if ri < rest.len() {
                assert(old_dv + (seq![strip_cr(rest.take(ri))] + lines_of(s@.skip(i as int + 1)))
                    =~= r.deep_view() + lines_of(s@.skip(i as int + 1)));
            } else {
                assert(old_dv + seq![strip_cr(rest)] =~= r.deep_view());
                assert(s@.skip(n as int) =~= Seq::<char>::empty());
            }
        }
        if i < n {
            pos = i + 1;
        } else {
            pos = n;
        }
    }
    proof {
        assert(s@.skip(pos as int) =~= Seq::<char>::empty());
    }
    r
}

} // verus!
