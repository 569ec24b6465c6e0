//! Trimming: white space and repeated markers at the ends of a text.
use vstd::prelude::*;
use vstd::slice::slice_subrange;
use super::chars::{chars_of, is_blank, is_white_space, white_space};
use super::search::{begins, starts_with};

verus! {

/// `s` without its leading white space.
pub open spec fn trim_start(s: Seq<char>) -> Seq<char>
    decreases s.len(),
{
    if s.len() > 0 && is_white_space(s[0]) {
        trim_start(s.skip(1))
    } else {
        s
    }
}

/// `s` without its trailing white space.
pub open spec fn trim_end(s: Seq<char>) -> Seq<char>
    decreases s.len(),
{
    if s.len() > 0 && is_white_space(s.last()) {
        trim_end(s.drop_last())
    } else {
        s
    }
}

/// `s` without white space at either end.
pub open spec fn trim(s: Seq<char>) -> Seq<char> {
    trim_end(trim_start(s))
}

/// `s` after removing `mark` from its front as often as it stands there.
pub open spec fn strip_all(s: Seq<char>, mark: Seq<char>) -> Seq<char>
    decreases s.len(),
{
    if mark.len() > 0 && begins(s, mark) {
        strip_all(s.skip(mark.len() as int), mark)
    } else {
        s
    }
}

/// A quotation mark of either kind.
pub open spec fn is_quote(c: char) -> bool {
    c == '\'' || c == '"'
}

/// `s` without leading quotation marks.
pub open spec fn unquote_start(s: Seq<char>) -> Seq<char>
    decreases s.len(),
{
    if s.len() > 0 && is_quote(s[0]) {
        unquote_start(s.skip(1))
    } else {
        s
    }
}

/// `s` without trailing quotation marks.
pub open spec fn unquote_end(s: Seq<char>) -> Seq<char>
    decreases s.len(),
{
    if s.len() > 0 && is_quote(s.last()) {
        unquote_end(s.drop_last())
    } else {
        s
    }
}

/// `s` without quotation marks at either end.
pub open spec fn unquote(s: Seq<char>) -> Seq<char> {
    unquote_end(unquote_start(s))
}

/// A text that neither begins nor ends with white space is trimmed already.
pub proof fn lemma_trim_keeps(s: Seq<char>)
    requires
        s.len() > 0 ==> !is_white_space(s[0]) && !is_white_space(s.last()),
    ensures
        trim(s) == s,
{
}

proof fn lemma_trim_start(s: Seq<char>)
    ensures
        trim_start(s).len() > 0 ==> !is_white_space(trim_start(s)[0]),
        trim_start(s).len() > 0 ==> trim_start(s).last() == s.last(),
        trim_start(s).len() <= s.len(),
    decreases s.len(),
{
    if s.len() > 0 && is_white_space(s[0]) {
        lemma_trim_start(s.skip(1));
    }
}

proof fn lemma_trim_end(s: Seq<char>)
    ensures
        trim_end(s).len() > 0 ==> !is_white_space(trim_end(s).last()),
        trim_end(s).len() > 0 ==> trim_end(s)[0] == s[0],
        trim_end(s).len() <= s.len(),
    decreases s.len(),
{
    if s.len() > 0 && is_white_space(s.last()) {
        lemma_trim_end(s.drop_last());
    }
}

/// Without its trailing white space a text is a prefix of itself.
pub proof fn lemma_trim_end_prefix(s: Seq<char>)
    ensures
        begins(s, trim_end(s)),
    decreases s.len(),
{
    if s.len() > 0 && is_white_space(s.last()) {
        lemma_trim_end_prefix(s.drop_last());
        let t = trim_end(s);
        assert(s.drop_last().take(t.len() as int) == s.take(t.len() as int));
    } else {
        assert(s.take(s.len() as int) == s);
    }
}

/// Without its leading white space a text is a suffix of itself.
pub proof fn lemma_trim_start_suffix(s: Seq<char>)
    ensures
        trim_start(s).len() <= s.len(),
        s.skip(s.len() - trim_start(s).len()) == trim_start(s),
    decreases s.len(),
{
    if s.len() > 0 && is_white_space(s[0]) {
        lemma_trim_start_suffix(s.skip(1));
        let t = trim_start(s);
        assert(s.skip(1).skip(s.len() - 1 - t.len()) == s.skip(s.len() - t.len()));
    } else {
        assert(s.skip(0) == s);
    }
}

/// Without its leading quotation marks a text is a suffix of itself.
pub proof fn lemma_unquote_start_suffix(s: Seq<char>)
    ensures
        unquote_start(s).len() <= s.len(),
        s.skip(s.len() - unquote_start(s).len()) == unquote_start(s),
    decreases s.len(),
{
    if s.len() > 0 && is_quote(s[0]) {
        lemma_unquote_start_suffix(s.skip(1));
        let t = unquote_start(s);
        assert(s.skip(1).skip(s.len() - 1 - t.len()) == s.skip(s.len() - t.len()));
    } else {
        assert(s.skip(0) == s);
    }
}

/// Without its trailing quotation marks a text is a prefix of itself.
pub proof fn lemma_unquote_end_prefix(s: Seq<char>)
    ensures
        begins(s, unquote_end(s)),
    decreases s.len(),
{
    if s.len() > 0 && is_quote(s.last()) {
        lemma_unquote_end_prefix(s.drop_last());
        let t = unquote_end(s);
        assert(s.drop_last().take(t.len() as int) == s.take(t.len() as int));
    } else {
        assert(s.take(s.len() as int) == s);
    }
}

/// White space before a text comes off it.
pub proof fn lemma_trim_start_blank(blank: Seq<char>, t: Seq<char>)
    requires
        is_blank(blank),
        t.len() > 0,
        !is_white_space(t[0]),
    ensures
        trim_start(blank + t) == t,
    decreases blank.len(),
{
    if blank.len() == 0 {
        assert(blank + t == t);
    } else {
        assert((blank + t)[0] == blank[0]);
        assert((blank + t).skip(1) == blank.skip(1) + t);
        lemma_trim_start_blank(blank.skip(1), t);
    }
}

/// White space behind a text comes off it.
pub proof fn lemma_trim_end_blank(t: Seq<char>, blank: Seq<char>)
    requires
        is_blank(blank),
        t.len() > 0,
        !is_white_space(t.last()),
    ensures
        trim_end(t + blank) == t,
    decreases blank.len(),
{
    if blank.len() == 0 {
        assert(t + blank == t);
    } else {
        assert((t + blank).last() == blank.last());
        assert((t + blank).drop_last() == t + blank.drop_last());
        lemma_trim_end_blank(t, blank.drop_last());
    }
}

/// White space at the end of a text that has more than that comes off it alone.
pub proof fn lemma_trim_end_behind(t: Seq<char>, u: Seq<char>)
    requires
        trim_end(u).len() > 0,
    ensures
        trim_end(t + u) == t + trim_end(u),
    decreases u.len(),
{
    assert((t + u).last() == u.last());
    if is_white_space(u.last()) {
        assert((t + u).drop_last() == t + u.drop_last());
        lemma_trim_end_behind(t, u.drop_last());
    }
}

/// A text that begins with another character than white space keeps it.
pub proof fn lemma_trim_end_some(u: Seq<char>)
    requires
        u.len() > 0,
        !is_white_space(u[0]),
    ensures
        trim_end(u).len() > 0,
        trim_end(u)[0] == u[0],
    decreases u.len(),
{
    if is_white_space(u.last()) {
        lemma_trim_end_some(u.drop_last());
    }
}

/// A trimmed text neither begins nor ends with white space.
pub proof fn lemma_trim_trimmed(s: Seq<char>)
    ensures
        trim(s).len() > 0 ==> !is_white_space(trim(s)[0]) && !is_white_space(trim(s).last()),
        trim(s).len() <= s.len(),
{
    lemma_trim_start(s);
    lemma_trim_end(trim_start(s));
}

/// Number of leading white space characters, as an index.
pub fn start_of(s: &[char]) -> (i: usize)
    ensures
        i <= s@.len(),
        trim_start(s@) == s@.skip(i as int),
{
    let mut i: usize = 0;
    assert(s@.skip(0) == s@);
    while i < s.len() && white_space(s[i])
        invariant
            i <= s@.len(),
            trim_start(s@) == trim_start(s@.skip(i as int)),
        decreases s@.len() - i,
    {
        assert(s@.skip(i as int).skip(1) == s@.skip(i as int + 1));
        i += 1;
    }
    i
}

/// `s` without its leading white space.
pub fn trimmed_start(s: &[char]) -> (r: &[char])
    ensures
        r@ == trim_start(s@),
{
    let i: usize = start_of(s);
    slice_subrange(s, i, s.len())
}

/// `s` without its trailing white space.
pub fn trimmed_end(s: &[char]) -> (r: &[char])
    ensures
        r@ == trim_end(s@),
{
    let mut n: usize = s.len();
    assert(s@.take(n as int) == s@);
    while n > 0 && white_space(s[n - 1])
        invariant
            n <= s@.len(),
            trim_end(s@) == trim_end(s@.take(n as int)),
        decreases n,
    {
        assert(s@.take(n as int).drop_last() == s@.take(n as int - 1));
        n -= 1;
    }
    slice_subrange(s, 0, n)
}

/// `s` without white space at either end.
pub fn trimmed(s: &[char]) -> (r: &[char])
    ensures
        r@ == trim(s@),
{
    trimmed_end(trimmed_start(s))
}

/// `s` without `mark` at its front, however often it stands there.
pub fn stripped_all<'a>(s: &'a [char], mark: &str) -> (r: &'a [char])
    ensures
        r@ == strip_all(s@, mark@),
{
    let m = chars_of(mark);
    let mut i: usize = 0;
    assert(s@.skip(0) == s@);
    while m.len() > 0 && starts_with(slice_subrange(s, i, s.len()), m.as_slice())
        invariant
            i <= s@.len(),
            m@ == mark@,
            strip_all(s@, mark@) == strip_all(s@.skip(i as int), mark@),
        decreases s@.len() - i,
    {
        assert(s@.skip(i as int).skip(m@.len() as int) == s@.skip(i as int + m@.len()));
        i += m.len();
    }
    slice_subrange(s, i, s.len())
}

/// `s` without quotation marks at either end.
pub fn unquoted(s: &[char]) -> (r: &[char])
    ensures
        r@ == unquote(s@),
{
    let mut i: usize = 0;
    assert(s@.skip(0) == s@);
    while i < s.len() && (s[i] == '\'' || s[i] == '"')
        invariant
            i <= s@.len(),
            unquote_start(s@) == unquote_start(s@.skip(i as int)),
        decreases s@.len() - i,
    {
        assert(s@.skip(i as int).skip(1) == s@.skip(i as int + 1));
        i += 1;
    }
    let t = slice_subrange(s, i, s.len());
    let mut n: usize = t.len();
    assert(t@.take(n as int) == t@);
    while n > 0 && (t[n - 1] == '\'' || t[n - 1] == '"')
        invariant
            n <= t@.len(),
            unquote_end(t@) == unquote_end(t@.take(n as int)),
        decreases n,
    {
        assert(t@.take(n as int).drop_last() == t@.take(n as int - 1));
        n -= 1;
    }
    slice_subrange(t, 0, n)
}

} // verus!
