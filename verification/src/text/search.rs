//! Searching: prefixes, suffixes, first occurrences and splitting.
use vstd::prelude::*;
use vstd::slice::slice_subrange;
use super::chars::{chars_of, digit, is_digit, is_letter, letter, same};

verus! {

/// `s` begins with `p`.
pub open spec fn begins(s: Seq<char>, p: Seq<char>) -> bool {
    p.len() <= s.len() && s.take(p.len() as int) == p
}

/// What follows `p` in a text that begins with it.
pub open spec fn after(s: Seq<char>, p: Seq<char>) -> Seq<char> {
    s.skip(p.len() as int)
}

/// `s` ends with `p`.
pub open spec fn ends(s: Seq<char>, p: Seq<char>) -> bool {
    p.len() <= s.len() && s.skip(s.len() - p.len()) == p
}

/// `p` stands in `s` at index `i`.
pub open spec fn occurs_at(s: Seq<char>, p: Seq<char>, i: int) -> bool {
    0 <= i && i + p.len() <= s.len() && s.subrange(i, i + p.len()) == p
}

/// `p` stands in `s` at index `i` and at no smaller index.
pub open spec fn is_first(s: Seq<char>, p: Seq<char>, i: int) -> bool {
    occurs_at(s, p, i) && forall|j: int| 0 <= j < i ==> !occurs_at(s, p, j)
}

/// `p` stands somewhere in `s`.
pub open spec fn occurs(s: Seq<char>, p: Seq<char>) -> bool {
    exists|i: int| occurs_at(s, p, i)
}

/// The index of the first occurrence of `p` in `s`.
pub open spec fn find(s: Seq<char>, p: Seq<char>) -> Option<int> {
    if occurs(s, p) {
        Some(choose|i: int| is_first(s, p, i))
    } else {
        None
    }
}

/// The index of the first character of `s` that satisfies `f`.
pub open spec fn find_where(s: Seq<char>, f: spec_fn(char) -> bool) -> Option<int>
    decreases s.len(),
{
    if s.len() == 0 {
        None
    } else if f(s[0]) {
        Some(0int)
    } else {
        match find_where(s.skip(1), f) {
            Some(i) => Some(i + 1),
            None => None,
        }
    }
}

/// The test for one character.
pub open spec fn is_char(c: char) -> spec_fn(char) -> bool {
    |d: char| d == c
}

/// The index of the first character of `s` that is `c`.
pub open spec fn find_char(s: Seq<char>, c: char) -> Option<int> {
    find_where(s, is_char(c))
}

/// The parts of `s` between the separators; there is always at least one.
pub open spec fn split(s: Seq<char>, sep: char) -> Seq<Seq<char>>
    decreases s.len(),
{
    if s.len() == 0 {
        seq![seq![]]
    } else {
        let before = split(s.drop_last(), sep);
        if s.last() == sep {
            before.push(seq![])
        } else {
            before.drop_last().push(before.last().push(s.last()))
        }
    }
}

/// The views of a vector of character vectors.
pub open spec fn parts_view(v: Seq<Vec<char>>) -> Seq<Seq<char>> {
    v.map_values(|p: Vec<char>| p@)
}

/// The view of a vector with one more part.
pub proof fn lemma_parts_push(v: Seq<Vec<char>>, p: Vec<char>)
    ensures
        parts_view(v.push(p)) == parts_view(v).push(p@),
{
}

/// A first occurrence exists below any occurrence.
proof fn lemma_least(s: Seq<char>, p: Seq<char>, i: int)
    requires
        occurs_at(s, p, i),
    ensures
        exists|j: int| is_first(s, p, j),
    decreases i,
{
    if !is_first(s, p, i) {
        let j = choose|j: int| 0 <= j < i && occurs_at(s, p, j);
        lemma_least(s, p, j);
    }
}

/// What `find` gives.
pub proof fn lemma_find(s: Seq<char>, p: Seq<char>)
    ensures
        match find(s, p) {
            Some(i) => is_first(s, p, i),
            None => forall|i: int| !occurs_at(s, p, i),
        },
{
    if occurs(s, p) {
        let i = choose|i: int| occurs_at(s, p, i);
        lemma_least(s, p, i);
    }
}

/// The first occurrence is the one that `find` gives.
pub proof fn lemma_find_is(s: Seq<char>, p: Seq<char>, i: int)
    requires
        is_first(s, p, i),
    ensures
        find(s, p) == Some(i),
{
    lemma_find(s, p);
    let j = find(s, p)->0;
    assert(occurs_at(s, p, j));
    if i < j {
        assert(occurs_at(s, p, i));
    }
}

/// What `find_where` gives.
pub proof fn lemma_find_where(s: Seq<char>, f: spec_fn(char) -> bool)
    ensures
        match find_where(s, f) {
            Some(i) => 0 <= i < s.len() && f(s[i]) && forall|j: int| 0 <= j < i ==> !f(s[j]),
            None => forall|j: int| 0 <= j < s.len() ==> !f(s[j]),
        },
    decreases s.len(),
{
    if s.len() > 0 && !f(s[0]) {
        let t = s.skip(1);
        lemma_find_where(t, f);
        match find_where(t, f) {
            Some(i) => {
                assert forall|j: int| 0 <= j < i + 1 implies !f(s[j]) by {
                    if j > 0 {
                        assert(s[j] == t[j - 1]);
                    }
                }
            },
            None => {
                assert forall|j: int| 0 <= j < s.len() implies !f(s[j]) by {
                    if j > 0 {
                        assert(s[j] == t[j - 1]);
                    }
                }
            },
        }
    }
}

/// The first index that satisfies `f` is the one that `find_where` gives.
pub proof fn lemma_find_where_is(s: Seq<char>, f: spec_fn(char) -> bool, i: int)
    requires
        0 <= i < s.len(),
        f(s[i]),
        forall|j: int| 0 <= j < i ==> !f(s[j]),
    ensures
        find_where(s, f) == Some(i),
{
    lemma_find_where(s, f);
    match find_where(s, f) {
        Some(k) => {
            if i < k {
                assert(f(s[i]));
            } else if k < i {
                assert(f(s[k]));
            }
        },
        None => {},
    }
}

/// No index satisfies `f`: `find_where` gives none.
pub proof fn lemma_find_where_none(s: Seq<char>, f: spec_fn(char) -> bool)
    requires
        forall|j: int| 0 <= j < s.len() ==> !f(s[j]),
    ensures
        find_where(s, f) is None,
{
    lemma_find_where(s, f);
}

/// A text splits into at least one part.
pub proof fn lemma_split_len(s: Seq<char>, sep: char)
    ensures
        split(s, sep).len() > 0,
    decreases s.len(),
{
    if s.len() > 0 {
        lemma_split_len(s.drop_last(), sep);
    }
}

/// A text without the separator is one part.
pub proof fn lemma_split_none(s: Seq<char>, sep: char)
    requires
        forall|i: int| 0 <= i < s.len() ==> #[trigger] s[i] != sep,
    ensures
        split(s, sep) == seq![s],
    decreases s.len(),
{
    if s.len() > 0 {
        lemma_split_none(s.drop_last(), sep);
        assert(s.drop_last().push(s.last()) == s);
        assert(split(s, sep) == seq![s]);
    } else {
        assert(s == Seq::<char>::empty());
    }
}

/// A separator and a text without one behind it are one part more.
pub proof fn lemma_split_push(a: Seq<char>, sep: char, b: Seq<char>)
    requires
        forall|i: int| 0 <= i < b.len() ==> #[trigger] b[i] != sep,
    ensures
        split(a.push(sep) + b, sep) == split(a, sep).push(b),
    decreases b.len(),
{
    let s = a.push(sep) + b;
    if b.len() == 0 {
        assert(s == a.push(sep));
        assert(s.drop_last() == a);
        assert(b == Seq::<char>::empty());
    } else {
        assert(s.drop_last() == a.push(sep) + b.drop_last());
        lemma_split_push(a, sep, b.drop_last());
        assert(s.last() == b.last());
        assert(b.drop_last().push(b.last()) == b);
        assert(split(s, sep) == split(a, sep).push(b));
    }
}

/// Whether `s` begins with `p`.
pub fn starts_with(s: &[char], p: &[char]) -> (r: bool)
    ensures
        r == begins(s@, p@),
{
    p.len() <= s.len() && same(slice_subrange(s, 0, p.len()), p)
}

/// Whether `s` begins with the string `p`.
pub fn starts_with_str(s: &[char], p: &str) -> (r: bool)
    ensures
        r == begins(s@, p@),
{
    let cs = chars_of(p);
    starts_with(s, cs.as_slice())
}

/// What follows the string `p` at the front of `s`.
pub fn after_prefix<'a>(s: &'a [char], p: &str) -> (r: Option<&'a [char]>)
    ensures
        begins(s@, p@) ==> r is Some && r->0@ == after(s@, p@),
        !begins(s@, p@) ==> r is None,
{
    let cs = chars_of(p);
    if starts_with(s, cs.as_slice()) {
        Some(slice_subrange(s, cs.len(), s.len()))
    } else {
        None
    }
}

/// Whether `s` ends with the string `p`.
pub fn ends_with_str(s: &[char], p: &str) -> (r: bool)
    ensures
        r == ends(s@, p@),
{
    let cs = chars_of(p);
    cs.len() <= s.len() && same(slice_subrange(s, s.len() - cs.len(), s.len()), cs.as_slice())
}

/// The index of the first occurrence of `p` in `s`.
pub fn position(s: &[char], p: &[char]) -> (r: Option<usize>)
    ensures
        match r {
            Some(i) => find(s@, p@) == Some(i as int) && is_first(s@, p@, i as int),
            None => find(s@, p@) is None,
        },
{
    if p.len() > s.len() {
        return None;
    }
    let mut i: usize = 0;
    while i <= s.len() - p.len()
        invariant
            p@.len() <= s@.len(),
            i <= s@.len() - p@.len() + 1,
            forall|j: int| 0 <= j < i ==> !occurs_at(s@, p@, j),
        decreases s@.len() - i,
    {
        if same(slice_subrange(s, i, i + p.len()), p) {
            proof {
                lemma_find_is(s@, p@, i as int);
            }
            return Some(i);
        }
        if i == s.len() - p.len() {
            return None;
        }
        i += 1;
    }
    None
}

/// The index of the first occurrence of the string `p` in `s`.
pub fn position_str(s: &[char], p: &str) -> (r: Option<usize>)
    ensures
        match r {
            Some(i) => find(s@, p@) == Some(i as int) && is_first(s@, p@, i as int),
            None => find(s@, p@) is None,
        },
{
    let cs = chars_of(p);
    position(s, cs.as_slice())
}

/// Whether the string `p` stands somewhere in `s`.
pub fn contains_str(s: &[char], p: &str) -> (r: bool)
    ensures
        r == occurs(s@, p@),
{
    let cs = chars_of(p);
    match position(s, cs.as_slice()) {
        Some(i) => true,
        None => false,
    }
}

/// The index of the first `c` in `s`.
pub fn position_char(s: &[char], c: char) -> (r: Option<usize>)
    ensures
        match r {
            Some(i) => find_char(s@, c) == Some(i as int) && i < s@.len() && s@[i as int] == c,
            None => find_char(s@, c) is None,
        },
{
    let ghost f = is_char(c);
    for i in 0..s.len()
        invariant
            f == is_char(c),
            forall|j: int| 0 <= j < i ==> s@[j] != c,
    {
        if s[i] == c {
            proof {
                lemma_find_where_is(s@, f, i as int);
            }
            return Some(i);
        }
    }
    proof {
        lemma_find_where_none(s@, f);
    }
    None
}

/// The index of the first digit in `s`.
pub fn position_digit(s: &[char]) -> (r: Option<usize>)
    ensures
        match r {
            Some(i) => find_where(s@, |c: char| is_digit(c)) == Some(i as int) && i < s@.len(),
            None => find_where(s@, |c: char| is_digit(c)) is None,
        },
{
    let ghost f = |c: char| is_digit(c);
    for i in 0..s.len()
        invariant
            f == (|c: char| is_digit(c)),
            forall|j: int| 0 <= j < i ==> !is_digit(s@[j]),
    {
        if digit(s[i]) {
            proof {
                lemma_find_where_is(s@, f, i as int);
            }
            return Some(i);
        }
    }
    proof {
        lemma_find_where_none(s@, f);
    }
    None
}

/// The index of the first letter in `s`.
pub fn position_letter(s: &[char]) -> (r: Option<usize>)
    ensures
        match r {
            Some(i) => find_where(s@, |c: char| is_letter(c)) == Some(i as int) && i < s@.len(),
            None => find_where(s@, |c: char| is_letter(c)) is None,
        },
{
    let ghost f = |c: char| is_letter(c);
    for i in 0..s.len()
        invariant
            f == (|c: char| is_letter(c)),
            forall|j: int| 0 <= j < i ==> !is_letter(s@[j]),
    {
        if letter(s[i]) {
            proof {
                lemma_find_where_is(s@, f, i as int);
            }
            return Some(i);
        }
    }
    proof {
        lemma_find_where_none(s@, f);
    }
    None
}

/// The parts of `s` between the separators.
pub fn split_on(s: &[char], sep: char) -> (r: Vec<Vec<char>>)
    ensures
        parts_view(r@) == split(s@, sep),
        r@.len() > 0,
{
    let mut parts: Vec<Vec<char>> = Vec::new();
    let mut current: Vec<char> = Vec::new();
    proof {
        assert(s@.take(0).len() == 0);
        assert(parts_view(parts@).push(current@) == split(s@.take(0), sep));
    }
    for i in 0..s.len()
        invariant
            parts_view(parts@).push(current@) == split(s@.take(i as int), sep),
    {
        let c = s[i];
        let ghost before = split(s@.take(i as int), sep);
        let ghost old_parts = parts_view(parts@);
        proof {
            assert(s@.take(i as int + 1).drop_last() == s@.take(i as int));
            assert(before.drop_last() == old_parts);
            assert(before.last() == current@);
        }
        if c == sep {
            parts.push(current);
            current = Vec::new();
            assert(parts_view(parts@) == before);
        } else {
            current.push(c);
        }
        assert(parts_view(parts@).push(current@) == split(s@.take(i as int + 1), sep));
    }
    assert(s@.take(s@.len() as int) == s@);
    let ghost done = parts_view(parts@).push(current@);
    parts.push(current);
    assert(parts_view(parts@) == done);
    parts
}

} // verus!
