//! Comments: what ends a line, unless it stands inside quotation marks.
use vstd::prelude::*;
use vstd::slice::slice_subrange;
use super::chars::chars_of;
use super::search::{begins, occurs_at, starts_with};
use super::trim::{lemma_trim_end_prefix, trim_end, trimmed_end};
use crate::listing::{least, lemma_least, lemma_least_is};

verus! {

/// How a language writes its comments.
#[derive(Debug, Clone, Copy, PartialEq, Eq, Structural)]
pub enum CommentStyle {
    /// Behind two slashes. Strings stand between double quotation marks, and a
    /// backslash escapes what follows it there.
    Slashes,
    /// Behind a number sign. Strings stand between quotation marks of either
    /// kind.
    Hash,
}

impl CommentStyle {
    /// What a comment begins with.
    pub open spec fn mark(self) -> Seq<char> {
        match self {
            CommentStyle::Slashes => "//"@,
            CommentStyle::Hash => "#"@,
        }
    }

    /// The state of a scan behind one more character. With slashes it says
    /// whether the next character stands inside a string, and whether it is
    /// escaped there; with a number sign, whether it stands inside single
    /// quotation marks, and whether inside double ones.
    pub open spec fn next(self, state: (bool, bool), c: char) -> (bool, bool) {
        match self {
            CommentStyle::Slashes => if state.1 {
                (state.0, false)
            } else if c == '\\' && state.0 {
                (true, true)
            } else if c == '"' {
                (!state.0, false)
            } else {
                (state.0, false)
            },
            CommentStyle::Hash => if c == '\'' && !state.1 {
                (!state.0, state.1)
            } else if c == '"' && !state.0 {
                (state.0, !state.1)
            } else {
                state
            },
        }
    }

    /// The state of a scan behind one more character.
    pub fn step(self, state: (bool, bool), c: char) -> (r: (bool, bool))
        ensures
            r == self.next(state, c),
    {
        match self {
            CommentStyle::Slashes => if state.1 {
                (state.0, false)
            } else if c == '\\' && state.0 {
                (true, true)
            } else if c == '"' {
                (!state.0, false)
            } else {
                (state.0, false)
            },
            CommentStyle::Hash => if c == '\'' && !state.1 {
                (!state.0, state.1)
            } else if c == '"' && !state.0 {
                (state.0, !state.1)
            } else {
                state
            },
        }
    }
}

/// The state of a scan behind the first `i` characters.
pub open spec fn scan(style: CommentStyle, s: Seq<char>, i: int) -> (bool, bool)
    decreases i,
{
    if i <= 0 {
        (false, false)
    } else {
        style.next(scan(style, s, i - 1), s[i - 1])
    }
}

/// Where a comment may begin: at its mark, outside quotation marks.
pub open spec fn opens_comment(style: CommentStyle, line: Seq<char>) -> spec_fn(int) -> bool {
    |i: int| scan(style, line, i) == (false, false) && occurs_at(line, style.mark(), i)
}

/// A line without its comment, and without the white space before that.
pub open spec fn uncommented(style: CommentStyle, line: Seq<char>) -> Seq<char> {
    match least(line.len() as int, opens_comment(style, line)) {
        Some(i) => trim_end(line.take(i)),
        None => line,
    }
}

/// A scan depends on what it has passed alone.
pub proof fn lemma_scan_prefix(style: CommentStyle, a: Seq<char>, b: Seq<char>, i: int)
    requires
        i <= a.len(),
        i <= b.len(),
        forall|k: int| 0 <= k < i ==> a[k] == b[k],
    ensures
        scan(style, a, i) == scan(style, b, i),
    decreases i,
{
    if i > 0 {
        lemma_scan_prefix(style, a, b, i - 1);
    }
}

/// Of a line its front is kept, and no comment is left in it.
pub proof fn law_comments_come_off(style: CommentStyle, line: Seq<char>)
    ensures
        begins(line, uncommented(style, line)),
        forall|i: int|
            0 <= i < uncommented(style, line).len() ==> !#[trigger] opens_comment(
                style,
                uncommented(style, line),
            )(i),
{
    reveal_strlit("//");
    reveal_strlit("#");
    let mark = style.mark();
    let f = opens_comment(style, line);
    let rest = uncommented(style, line);
    lemma_least(line.len() as int, f);
    match least(line.len() as int, f) {
        Some(n) => {
            lemma_trim_end_prefix(line.take(n));
            assert(line.take(n).take(rest.len() as int) == line.take(rest.len() as int));
        },
        None => {
            assert(line.take(line.len() as int) == line);
        },
    }
    assert forall|i: int| 0 <= i < rest.len() implies !#[trigger] opens_comment(style, rest)(i) by {
        assert forall|k: int| 0 <= k < rest.len() implies rest[k] == line[k] by {
            assert(line.take(rest.len() as int)[k] == line[k]);
        }
        lemma_scan_prefix(style, rest, line, i);
        if occurs_at(rest, mark, i) {
            assert(line.subrange(i, i + mark.len()) == rest.subrange(i, i + mark.len()));
            assert(!f(i));
        }
    }
}

/// Strips the comment from a line.
pub fn strip(style: CommentStyle, line: &[char]) -> (r: &[char])
    ensures
        r@ == uncommented(style, line@),
{
    let mark = match style {
        CommentStyle::Slashes => chars_of("//"),
        CommentStyle::Hash => chars_of("#"),
    };
    let ghost f = opens_comment(style, line@);
    let mut state: (bool, bool) = (false, false);
    for i in 0..line.len()
        invariant
            mark@ == style.mark(),
            f == opens_comment(style, line@),
            state == scan(style, line@, i as int),
            forall|j: int| 0 <= j < i ==> !#[trigger] f(j),
    {
        let rest = slice_subrange(line, i, line.len());
        let found = !state.0 && !state.1 && starts_with(rest, mark.as_slice());
        proof {
            let n = mark@.len() as int;
            if i + n <= line@.len() {
                assert(rest@.take(n) == line@.subrange(i as int, i + n));
            }
            assert(f(i as int) == found);
        }
        if found {
            proof {
                lemma_least_is(line@.len() as int, f, i as int);
                assert(line@.subrange(0, i as int) == line@.take(i as int));
            }
            return trimmed_end(slice_subrange(line, 0, i));
        }
        state = style.step(state, line[i]);
    }
    proof {
        lemma_least(line@.len() as int, f);
    }
    line
}

} // verus!
