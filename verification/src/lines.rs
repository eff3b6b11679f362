//! A text line by line.
use vstd::prelude::*;
use vstd::string::*;

use crate::text::string_of;

verus! {

/// Where the first line of a text ends: at its first line feed, or at its end.
pub open spec fn line_end(text: Seq<char>) -> int
    decreases text.len(),
{
    if text.len() == 0 || text[0] == '\n' {
        0
    } else {
        1 + line_end(text.drop_first())
    }
}

/// The first line of a text, without the line feed that ends it and a carriage return in
/// front of that.
pub open spec fn first_line(text: Seq<char>) -> Seq<char> {
    let end = line_end(text);
    let line = text.take(end);
    if end < text.len() && end > 0 && text[end - 1] == '\r' {
        line.drop_last()
    } else {
        line
    }
}

/// What is left of a text behind its first line.
pub open spec fn other_lines(text: Seq<char>) -> Seq<char> {
    let end = line_end(text);
    if end < text.len() {
        text.skip(end + 1)
    } else {
        seq![]
    }
}

/// White space, as Unicode lists it.
pub open spec fn white(c: char) -> bool {
    ||| '\u{9}' <= c <= '\u{d}'
    ||| c == ' '
    ||| c == '\u{85}'
    ||| c == '\u{a0}'
    ||| c == '\u{1680}'
    ||| '\u{2000}' <= c <= '\u{200a}'
    ||| c == '\u{2028}'
    ||| c == '\u{2029}'
    ||| c == '\u{202f}'
    ||| c == '\u{205f}'
    ||| c == '\u{3000}'
}

/// A line of nothing but white space.
pub open spec fn blank(line: Seq<char>) -> bool {
    forall|i: int| 0 <= i < line.len() ==> white(#[trigger] line[i])
}

/// The first line ends inside the text, or with it.
pub proof fn lemma_line_end(text: Seq<char>)
    ensures
        0 <= line_end(text) <= text.len(),
        line_end(text) < text.len() ==> text[line_end(text)] == '\n',
        forall|i: int| 0 <= i < line_end(text) ==> text[i] != '\n',
    decreases text.len(),
{
    if text.len() > 0 && text[0] != '\n' {
        let rest = text.drop_first();
        lemma_line_end(rest);
        assert forall|i: int| 0 <= i < line_end(text) implies text[i] != '\n' by {
            if i > 0 {
                assert(rest[i - 1] != '\n');
            }
        }
    }
}

/// The first line feed is where the first line ends.
pub proof fn lemma_line_end_at(text: Seq<char>, end: int)
    requires
        0 <= end <= text.len(),
        end < text.len() ==> text[end] == '\n',
        forall|i: int| 0 <= i < end ==> text[i] != '\n',
    ensures
        line_end(text) == end,
{
    lemma_line_end(text);
}

fn is_white(c: char) -> (r: bool)
    ensures
        r == white(c),
{
    ('\u{9}' <= c && c <= '\u{d}') || c == ' ' || c == '\u{85}' || c == '\u{a0}' || c
        == '\u{1680}' || ('\u{2000}' <= c && c <= '\u{200a}') || c == '\u{2028}' || c
        == '\u{2029}' || c == '\u{202f}' || c == '\u{205f}' || c == '\u{3000}'
}

/// Whether the characters in `from..to` are nothing but white space.
fn is_blank(chars: &Vec<char>, from: usize, to: usize) -> (r: bool)
    requires
        from <= to <= chars@.len(),
    ensures
        r == blank(chars@.subrange(from as int, to as int)),
{
    let mut i: usize = from;
    let ghost line = chars@.subrange(from as int, to as int);
    while i < to
        invariant
            from <= i <= to <= chars@.len(),
            line == chars@.subrange(from as int, to as int),
            forall|j: int| 0 <= j < i - from ==> white(#[trigger] line[j]),
        decreases to - i,
    {
        if !is_white(chars[i]) {
            assert(!white(line[i - from]));
            return false;
        }
        assert(white(line[i - from]));
        i += 1;
    }
    true
}

/// A line that was cut off a text: what it holds, unless that is only white space, and where
/// the next one begins.
pub struct Cut {
    pub line: Option<String>,
    pub next: usize,
}

/// Cuts the line that begins at `at`.
pub fn cut_line(chars: &Vec<char>, at: usize) -> (r: Cut)
    requires
        at < chars@.len(),
    ensures
        at < r.next <= chars@.len(),
        chars@.skip(r.next as int) == other_lines(chars@.skip(at as int)),
        match r.line {
            Some(line) => line@ == first_line(chars@.skip(at as int)) && !blank(line@),
            None => blank(first_line(chars@.skip(at as int))),
        },
{
    let ghost rest = chars@.skip(at as int);
    let mut end: usize = at;
    while end < chars.len() && chars[end] != '\n'
        invariant
            at <= end <= chars@.len(),
            rest == chars@.skip(at as int),
            forall|i: int| 0 <= i < end - at ==> rest[i] != '\n',
        decreases chars@.len() - end,
    {
        assert(rest[end - at] != '\n');
        end += 1;
    }
    proof {
        lemma_line_end_at(rest, end - at);
    }
    let stop: usize = if end < chars.len() && end > at && chars[end - 1] == '\r' {
        end - 1
    } else {
        end
    };
    assert(chars@.subrange(at as int, stop as int) =~= first_line(rest));
    let next: usize = if end < chars.len() {
        end + 1
    } else {
        end
    };
    assert(chars@.skip(next as int) =~= other_lines(rest));
    if is_blank(chars, at, stop) {
        Cut { line: None, next }
    } else {
        Cut { line: Some(string_of(chars, at, stop)), next }
    }
}

} // verus!
