//! From the text of a source file to its instruction lines: the lines of the
//! text, each without its comment and the blanks around it, the empty ones
//! left out.

use crate::text::{find_char, first_index, slice, to_chars, views};
use vstd::prelude::*;

verus! {

/// Whether `c` is white space, as Unicode defines it.
pub open spec fn is_whitespace(c: char) -> bool {
    ||| '\u{9}' <= c <= '\u{d}'
    ||| c == ' '
    ||| c == '\u{85}'
    ||| c == '\u{a0}'
    ||| c == '\u{1680}'
    ||| '\u{2000}' <= c <= '\u{200a}'
    ||| c == '\u{2028}'
    ||| c == '\u{2029}'
    ||| c == '\u{202f}'
    ||| c == '\u{205f}'
    ||| c == '\u{3000}'
}

/// `s` without the white space at its start and at its end.
pub open spec fn trimmed(s: Seq<char>) -> Seq<char>
    decreases s.len(),
{
    if s.len() == 0 {
        s
    } else if is_whitespace(s[0]) {
        trimmed(s.drop_first())
    } else if is_whitespace(s.last()) {
        trimmed(s.drop_last())
    } else {
        s
    }
}

/// Whether a `//` stands at position `at` of `s`.
pub open spec fn comment_at(s: Seq<char>, at: int) -> bool {
    0 <= at && at + 1 < s.len() && s[at] == '/' && s[at + 1] == '/'
}

/// Position of the first `//` in `s`, or `s.len()` when `s` holds none.
pub open spec fn comment_start(s: Seq<char>) -> int
    decreases s.len(),
{
    if s.len() < 2 {
        s.len() as int
    } else if s[0] == '/' && s[1] == '/' {
        0
    } else {
        1 + comment_start(s.drop_first())
    }
}

/// What a line of source text holds besides its comment and the white space
/// around the rest.
pub open spec fn clean_line(line: Seq<char>) -> Seq<char> {
    trimmed(line.take(comment_start(line)))
}

/// The pieces of `text` between its newlines: one more than it has newlines.
pub open spec fn split_lines(text: Seq<char>) -> Seq<Seq<char>>
    decreases text.len(),
{
    let end = first_index(text, '\n');
    if 0 <= end < text.len() {
        seq![text.take(end)] + split_lines(text.skip(end + 1))
    } else {
        seq![text]
    }
}

/// The lines that are left of `lines` once each is cleaned and the empty ones
/// are dropped.
pub open spec fn cleaned(lines: Seq<Seq<char>>) -> Seq<Seq<char>>
    decreases lines.len(),
{
    if lines.len() == 0 {
        Seq::empty()
    } else if clean_line(lines.last()).len() > 0 {
        cleaned(lines.drop_last()).push(clean_line(lines.last()))
    } else {
        cleaned(lines.drop_last())
    }
}

/// The instruction lines of a source text.
pub open spec fn instruction_lines(text: Seq<char>) -> Seq<Seq<char>> {
    cleaned(split_lines(text))
}

/// A range with white space before and after it, and none at either of its
/// ends, is what trimming leaves.
pub proof fn lemma_trimmed_is(s: Seq<char>, from: int, to: int)
    requires
        0 <= from <= to <= s.len(),
        forall|j: int| 0 <= j < from ==> is_whitespace(s[j]),
        forall|j: int| to <= j < s.len() ==> is_whitespace(s[j]),
        from < to ==> !is_whitespace(s[from]) && !is_whitespace(s[to - 1]),
    ensures
        trimmed(s) == s.subrange(from, to),
    decreases s.len(),
{
    if s.len() == 0 {
    } else if is_whitespace(s[0]) {
        if from == 0 {
            lemma_trimmed_is(s.drop_first(), 0, 0);
        } else {
            lemma_trimmed_is(s.drop_first(), from - 1, to - 1);
        }
    } else if is_whitespace(s.last()) {
        lemma_trimmed_is(s.drop_last(), from, to);
    }
}

/// A position with no `//` before it that sits on a `//`, or at the end, is
/// the start of the comment.
pub proof fn lemma_comment_start_is(s: Seq<char>, at: int)
    requires
        0 <= at <= s.len(),
        forall|j: int| 0 <= j < at ==> !comment_at(s, j),
        at == s.len() || comment_at(s, at),
    ensures
        comment_start(s) == at,
    decreases s.len(),
{
    if s.len() >= 2 && !(s[0] == '/' && s[1] == '/') {
        let rest = s.drop_first();
        assert forall|j: int| 0 <= j < at - 1 implies !comment_at(rest, j) by {
            assert(!comment_at(s, j + 1));
        }
        lemma_comment_start_is(rest, at - 1);
    } else if s.len() >= 2 {
        assert(comment_at(s, 0));
    }
}

/// Whether `c` is white space.
pub fn whitespace(c: char) -> (white: bool)
    ensures
        white == is_whitespace(c),
{
    ('\u{9}' <= c && c <= '\u{d}') || c == ' ' || c == '\u{85}' || c == '\u{a0}' || c
        == '\u{1680}' || ('\u{2000}' <= c && c <= '\u{200a}') || c == '\u{2028}' || c
        == '\u{2029}' || c == '\u{202f}' || c == '\u{205f}' || c == '\u{3000}'
}

/// A line of source text without its comment and without the white space
/// around the rest, or `None` when nothing is left.
pub fn clean_whitespace(line: &str) -> (rest: Option<&str>)
    ensures
        match rest {
            Some(kept) => kept@ == clean_line(line@) && kept@.len() > 0,
            None => clean_line(line@).len() == 0,
        },
{
    let chars = to_chars(line);
    let n = chars.len();
    let mut end: usize = 0;
    while end < n && !(end + 1 < n && chars[end] == '/' && chars[end + 1] == '/')
        invariant
            end <= n,
            n == chars.len(),
            forall|j: int| 0 <= j < end ==> !comment_at(chars@, j),
        decreases n - end,
    {
        end += 1;
    }
    proof {
        lemma_comment_start_is(line@, end as int);
    }
    let ghost code = line@.take(end as int);
    let mut from: usize = 0;
    while from < end && whitespace(chars[from])
        invariant
            from <= end <= n,
            n == chars.len(),
            forall|j: int| 0 <= j < from ==> is_whitespace(chars@[j]),
        decreases end - from,
    {
        from += 1;
    }
    let mut to: usize = end;
    while from < to && whitespace(chars[to - 1])
        invariant
            from <= to <= end <= n,
            n == chars.len(),
            forall|j: int| to <= j < end ==> is_whitespace(chars@[j]),
        decreases to,
    {
        to -= 1;
    }
    proof {
        lemma_trimmed_is(code, from as int, to as int);
    }
    if from == to {
        None
    } else {
        Some(line.substring_char(from, to))
    }
}

/// The lines of `contents`: the pieces between its newlines.
pub fn source_lines<'a>(contents: &'a str) -> (lines: Vec<&'a str>)
    ensures
        views(lines@) == split_lines(contents@),
{
    let chars = to_chars(contents);
    let ascii = contents.is_ascii();
    let n = chars.len();
    let mut lines: Vec<&'a str> = Vec::new();
    let mut start: usize = 0;
    let mut done = false;
    assert(contents@.skip(0) =~= contents@);
    while !done
        invariant
            start <= n,
            n == chars.len(),
            chars@ == contents@,
            ascii ==> contents.is_ascii(),
            !done ==> views(lines@) + split_lines(contents@.skip(start as int)) == split_lines(
                contents@,
            ),
            done ==> views(lines@) == split_lines(contents@),
        decreases n - start + if done { 0int } else { 1int },
    {
        let end = find_char(&chars, start, n, '\n');
        let line = slice(contents, ascii, start, end);
        let ghost rest = contents@.skip(start as int);
        let ghost before = views(lines@);
        proof {
            assert(line@ =~= rest.take(end - start));
        }
        lines.push(line);
        if end == n {
            assert(before.push(line@) =~= before + seq![rest]);
            done = true;
        } else {
            assert(rest.skip(end - start + 1) =~= contents@.skip(end + 1));
            assert(before.push(line@) + split_lines(contents@.skip(end + 1)) =~= before + (
                seq![line@] + split_lines(contents@.skip(end + 1))));
            start = end + 1;
        }
    }
    lines
}

/// The instruction lines among `lines`: each line cleaned, the empty ones
/// dropped.
pub fn clean_lines<'a>(lines: &Vec<&'a str>) -> (kept: Vec<&'a str>)
    ensures
        views(kept@) == cleaned(views(lines@)),
{
    let ghost all = views(lines@);
    let mut kept: Vec<&'a str> = Vec::new();
    let mut i: usize = 0;
    while i < lines.len()
        invariant
            i <= lines.len(),
            all == views(lines@),
            views(kept@) == cleaned(all.take(i as int)),
        decreases lines.len() - i,
    {
        assert(all.take(i + 1).drop_last() =~= all.take(i as int));
        match clean_whitespace(lines[i]) {
            Some(line) => {
                kept.push(line);
            },
            None => {},
        }
        i += 1;
    }
    assert(all.take(i as int) =~= all);
    kept
}

} // verus!
