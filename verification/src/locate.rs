//! Positions in a document, and where on its lines a text stands.
use vstd::prelude::*;
use vstd::slice::slice_subrange;
use vstd::utf8::encode_utf8;
use crate::text::chars::push_chars;
use crate::text::search::occurs_at;
use crate::text::utf8::{byte_len, bytes, lemma_encode_concat};

verus! {

/// A place in a document: a line, and a number of bytes on that line.
#[derive(Debug, Clone, Copy, PartialEq, Eq, Structural)]
pub struct Position {
    pub line: u32,
    pub character: u32,
}

/// What stands between two places.
#[derive(Debug, Clone, Copy, PartialEq, Eq, Structural)]
pub struct Range {
    pub start: Position,
    pub end: Position,
}

impl Default for Position {
    fn default() -> (r: Self)
        ensures
            r == (Position { line: 0, character: 0 }),
    {
        Position { line: 0, character: 0 }
    }
}

impl Default for Range {
    fn default() -> (r: Self)
        ensures
            r.start == (Position { line: 0, character: 0 }),
            r.end == (Position { line: 0, character: 0 }),
    {
        Range { start: Position::default(), end: Position::default() }
    }
}

/// The range of `text` where it follows `prefix` on a line. Numbers are cut to
/// 32 bits.
pub open spec fn span(line: int, prefix: Seq<char>, text: Seq<char>) -> Range {
    Range {
        start: Position { line: line as u32, character: bytes(prefix) as u32 },
        end: Position { line: line as u32, character: (bytes(prefix) + bytes(text)) as u32 },
    }
}

/// `range` is where `text` stands at index `k` of line `i`.
pub open spec fn stands_at(
    lines: Seq<Seq<char>>,
    range: Range,
    text: Seq<char>,
    i: int,
    k: int,
) -> bool {
    &&& 0 <= i < lines.len()
    &&& occurs_at(lines[i], text, k)
    &&& range == span(i, lines[i].take(k), text)
}

/// A text between double quotation marks.
pub open spec fn quoted(s: Seq<char>) -> Seq<char> {
    seq!['"'] + s + seq!['"']
}

/// A text between single quotation marks.
pub open spec fn single_quoted(s: Seq<char>) -> Seq<char> {
    seq!['\''] + s + seq!['\'']
}

/// A part of a text stands where the text stands.
pub proof fn lemma_occurs_inside(
    s: Seq<char>,
    outer: Seq<char>,
    at: int,
    offset: int,
    inner: Seq<char>,
)
    requires
        occurs_at(s, outer, at),
        occurs_at(outer, inner, offset),
    ensures
        occurs_at(s, inner, at + offset),
{
    assert(s.subrange(at + offset, at + offset + inner.len()) == s.subrange(
        at,
        at + outer.len(),
    ).subrange(offset, offset + inner.len()));
}

/// The bytes of a line once those of a range are replaced.
pub open spec fn edited(line: Seq<char>, range: Range, new_text: Seq<char>) -> Seq<u8> {
    encode_utf8(line).take(range.start.character as int) + encode_utf8(new_text) + encode_utf8(
        line,
    ).skip(range.end.character as int)
}

/// Replacing a range that covers a text replaces that text, and nothing else on
/// its line.
pub proof fn law_edit_replaces_text(
    lines: Seq<Seq<char>>,
    range: Range,
    text: Seq<char>,
    i: int,
    k: int,
    new_text: Seq<char>,
)
    requires
        stands_at(lines, range, text, i, k),
        i <= u32::MAX,
        bytes(lines[i]) <= u32::MAX,
    ensures
        range.start.line == i,
        range.end.line == i,
        edited(lines[i], range, new_text) == encode_utf8(
            lines[i].take(k) + new_text + lines[i].skip(k + text.len()),
        ),
{
    let line = lines[i];
    let before = line.take(k);
    let behind = line.skip(k + text.len());
    assert(line == before + (text + behind)) by {
        assert(line.subrange(k, k + text.len()) == text);
    }
    lemma_encode_concat(before, text + behind);
    lemma_encode_concat(text, behind);
    lemma_encode_concat(before + new_text, behind);
    lemma_encode_concat(before, new_text);
    assert(encode_utf8(line).take(bytes(before) as int) == encode_utf8(before));
    assert(encode_utf8(line).skip((bytes(before) + bytes(text)) as int) == encode_utf8(behind));
}

/// A text between double quotation marks.
pub fn quote(s: &[char]) -> (r: Vec<char>)
    ensures
        r@ == quoted(s@),
{
    let mut out: Vec<char> = Vec::new();
    out.push('"');
    push_chars(&mut out, s);
    out.push('"');
    assert(out@ == quoted(s@));
    out
}

/// A text between single quotation marks.
pub fn single_quote(s: &[char]) -> (r: Vec<char>)
    ensures
        r@ == single_quoted(s@),
{
    let mut out: Vec<char> = Vec::new();
    out.push('\'');
    push_chars(&mut out, s);
    out.push('\'');
    assert(out@ == single_quoted(s@));
    out
}

/// The range of the characters from `start` to `end` on a line.
pub fn span_of(line: &[char], index: usize, start: usize, end: usize) -> (r: Range)
    requires
        start <= end <= line@.len(),
    ensures
        r == span(index as int, line@.take(start as int), line@.subrange(start as int, end as int)),
{
    let from: usize = byte_len(slice_subrange(line, 0, start));
    let to: usize = byte_len(slice_subrange(line, 0, end));
    proof {
        let a = line@.take(start as int);
        let b = line@.subrange(start as int, end as int);
        assert(line@.subrange(0, start as int) == a);
        assert(line@.subrange(0, end as int) == a + b);
        lemma_encode_concat(a, b);
    }
    Range {
        start: Position {
            line: #[verifier::truncate]
            (index as u32),
            character: #[verifier::truncate]
            (from as u32),
        },
        end: Position {
            line: #[verifier::truncate]
            (index as u32),
            character: #[verifier::truncate]
            (to as u32),
        },
    }
}

/// The range of `inner` where it stands `offset` characters into the
/// occurrence of `outer` at index `at` of a line.
pub fn inner_span(
    line: &[char],
    index: usize,
    at: usize,
    outer: &[char],
    offset: usize,
    inner: &[char],
) -> (r: Range)
    requires
        occurs_at(line@, outer@, at as int),
        occurs_at(outer@, inner@, offset as int),
    ensures
        r == span(index as int, line@.take(at + offset), inner@),
{
    proof {
        lemma_occurs_inside(line@, outer@, at as int, offset as int, inner@);
    }
    let length: usize = line.len();
    assert(at + offset + inner@.len() <= length);
    let start: usize = at + offset;
    let end: usize = start + inner.len();
    span_of(line, index, start, end)
}

} // verus!
