//! Lines of a document.
use vstd::prelude::*;
use vstd::slice::slice_subrange;
use super::chars::push_chars;
use super::search::{lemma_parts_push, parts_view, split, split_on};

verus! {

/// `s` without one carriage return at its end.
pub open spec fn without_return(s: Seq<char>) -> Seq<char> {
    if s.len() > 0 && s.last() == '\r' {
        s.drop_last()
    } else {
        s
    }
}

/// The lines of `s`. A line ends at a line feed, which is not part of it, nor
/// is a carriage return in front of that line feed. What follows the last line
/// feed is a line if it is not empty.
pub open spec fn lines(s: Seq<char>) -> Seq<Seq<char>> {
    let parts = split(s, '\n');
    let ended = parts.drop_last().map_values(|p: Seq<char>| without_return(p));
    if parts.last().len() == 0 {
        ended
    } else {
        ended.push(parts.last())
    }
}

/// The lines of a document.
pub fn lines_of(s: &[char]) -> (r: Vec<Vec<char>>)
    ensures
        parts_view(r@) == lines(s@),
{
    let mut parts = split_on(s, '\n');
    let ghost all = parts_view(parts@);
    let last = parts.pop().unwrap();
    let mut out: Vec<Vec<char>> = Vec::new();
    assert(parts_view(parts@) == all.drop_last());
    assert(last@ == all.last());
    for i in 0..parts.len()
        invariant
            all.len() > 0,
            parts_view(parts@) == all.drop_last(),
            parts_view(out@) == all.drop_last().take(i as int).map_values(
                |p: Seq<char>| without_return(p),
            ),
    {
        let part = parts[i].as_slice();
        assert(part@ == all.drop_last()[i as int]);
        let n: usize = part.len();
        let mut line: Vec<char> = Vec::new();
        if n > 0 && part[n - 1] == '\r' {
            push_chars(&mut line, slice_subrange(part, 0, n - 1));
            assert(line@ == part@.drop_last());
        } else {
            push_chars(&mut line, part);
            assert(line@ == part@);
        }
        proof {
            lemma_parts_push(out@, line);
            let rest = all.drop_last();
            assert(rest.take(i as int + 1) == rest.take(i as int).push(rest[i as int]));
            assert(line@ == without_return(rest[i as int]));
        }
        out.push(line);
    }
    assert(all.drop_last().take(all.len() - 1) == all.drop_last());
    let ghost ended = parts_view(out@);
    if last.len() > 0 {
        out.push(last);
        assert(parts_view(out@) == ended.push(all.last()));
    }
    out
}

} // verus!
