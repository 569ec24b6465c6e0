//! What holds of lines, trimming and comments, stated on what a text is made of.
use vstd::prelude::*;
use super::chars::{is_blank, is_white_space};
use super::comments::{opens_comment, scan, uncommented, CommentStyle};
use super::lines::{lines, without_return};
use super::search::{begins, lemma_split_len, split};
use super::trim::{
    lemma_trim_end_blank, lemma_trim_end_prefix, lemma_trim_start_suffix, lemma_trim_trimmed, trim,
    trim_end, trim_start,
};
use crate::listing::{lemma_least, lemma_least_is};
use crate::locate::quoted;

verus! {

/// A text that goes on without the separator makes its last part longer.
proof fn lemma_split_longer(s: Seq<char>, sep: char, b: Seq<char>)
    requires
        forall|i: int| 0 <= i < b.len() ==> #[trigger] b[i] != sep,
    ensures
        split(s + b, sep) == split(s, sep).drop_last().push(split(s, sep).last() + b),
    decreases b.len(),
{
    let parts = split(s, sep);
    lemma_split_len(s, sep);
    if b.len() == 0 {
        assert(s + b == s);
        assert(parts.last() + b == parts.last());
        assert(parts.drop_last().push(parts.last()) == parts);
    } else {
        lemma_split_longer(s, sep, b.drop_last());
        assert((s + b).drop_last() == s + b.drop_last());
        assert((s + b).last() == b.last());
        assert((parts.last() + b.drop_last()).push(b.last()) == parts.last() + b);
        let before = split(s + b.drop_last(), sep);
        assert(before.drop_last() == parts.drop_last());
    }
}

/// A line may stand in a document: it holds no line feed, and does not end with a
/// carriage return.
pub open spec fn is_line(s: Seq<char>) -> bool {
    &&& forall|i: int| 0 <= i < s.len() ==> #[trigger] s[i] != '\n'
    &&& s.len() > 0 ==> s.last() != '\r'
}

/// The first `n` lines of a document, each with what ends it: a line feed, with a
/// carriage return in front of it or not.
pub open spec fn ended_lines(rows: Seq<Seq<char>>, crlf: Seq<bool>, n: int) -> Seq<char>
    decreases n,
{
    if n <= 0 {
        seq![]
    } else {
        let end: Seq<char> = if crlf[n - 1] {
            seq!['\r', '\n']
        } else {
            seq!['\n']
        };
        ended_lines(rows, crlf, n - 1) + rows[n - 1] + end
    }
}

/// A line as it stands before its line feed.
spec fn raw_line(row: Seq<char>, returned: bool) -> Seq<char> {
    if returned {
        row.push('\r')
    } else {
        row
    }
}

/// The parts of a document between its line feeds.
proof fn lemma_ended_parts(rows: Seq<Seq<char>>, crlf: Seq<bool>, n: int)
    requires
        0 <= n <= rows.len(),
        crlf.len() == rows.len(),
        forall|i: int| 0 <= i < rows.len() ==> is_line(#[trigger] rows[i]),
    ensures
        split(ended_lines(rows, crlf, n), '\n') == Seq::new(
            n as nat,
            |i: int| raw_line(rows[i], crlf[i]),
        ).push(seq![]),
    decreases n,
{
    let f = |i: int| raw_line(rows[i], crlf[i]);
    if n > 0 {
        lemma_ended_parts(rows, crlf, n - 1);
        let before = ended_lines(rows, crlf, n - 1);
        let raw = raw_line(rows[n - 1], crlf[n - 1]);
        let s = before + raw;
        assert(is_line(rows[n - 1]));
        assert forall|i: int| 0 <= i < raw.len() implies #[trigger] raw[i] != '\n' by {
            if i < rows[n - 1].len() {
                assert(raw[i] == rows[n - 1][i]);
            }
        }
        lemma_split_longer(before, '\n', raw);
        let parts = Seq::new((n - 1) as nat, f);
        let none = Seq::<char>::empty();
        assert(parts.push(none).drop_last() == parts);
        assert(none + raw == raw);
        assert(split(s, '\n') == parts.push(raw));
        assert(ended_lines(rows, crlf, n) == s.push('\n'));
        assert(s.push('\n').drop_last() == s);
        assert(parts.push(raw) == Seq::new(n as nat, f));
    } else {
        assert(Seq::new(0nat, f) == Seq::<Seq<char>>::empty());
        assert(split(ended_lines(rows, crlf, n), '\n') == Seq::new(0nat, f).push(seq![]));
    }
}

/// The lines of a document are what stands before its line feeds, without a carriage
/// return at its end; what follows the last line feed is a line where it is not empty.
pub proof fn law_lines(rows: Seq<Seq<char>>, crlf: Seq<bool>, last: Seq<char>)
    requires
        crlf.len() == rows.len(),
        forall|i: int| 0 <= i < rows.len() ==> is_line(#[trigger] rows[i]),
        forall|i: int| 0 <= i < last.len() ==> #[trigger] last[i] != '\n',
    ensures
        lines(ended_lines(rows, crlf, rows.len() as int) + last) == (if last.len() == 0 {
            rows
        } else {
            rows.push(last)
        }),
{
    let n = rows.len() as int;
    let content = ended_lines(rows, crlf, n) + last;
    let f = |i: int| raw_line(rows[i], crlf[i]);
    let raws = Seq::new(n as nat, f);
    lemma_ended_parts(rows, crlf, n);
    lemma_split_longer(ended_lines(rows, crlf, n), '\n', last);
    let none = Seq::<char>::empty();
    assert(raws.push(none).drop_last() == raws);
    assert(none + last == last);
    let parts = split(content, '\n');
    assert(parts == raws.push(last));
    assert(parts.drop_last() == raws);
    let ended = raws.map_values(|p: Seq<char>| without_return(p));
    assert forall|i: int| 0 <= i < n implies ended[i] == rows[i] by {
        assert(raws[i] == raw_line(rows[i], crlf[i]));
        assert(is_line(rows[i]));
        if crlf[i] {
            assert(rows[i].push('\r').drop_last() == rows[i]);
        }
    }
    assert(ended == rows);
}

/// Trimming takes off white space at the ends, all of it, and nothing else.
pub proof fn law_trim(s: Seq<char>) -> (ends: (Seq<char>, Seq<char>))
    ensures
        s == ends.0 + trim(s) + ends.1,
        is_blank(ends.0),
        is_blank(ends.1),
        trim(s).len() > 0 ==> !is_white_space(trim(s)[0]) && !is_white_space(trim(s).last()),
{
    let u = trim_start(s);
    let t = trim(s);
    lemma_trim_trimmed(s);
    lemma_trim_start_suffix(s);
    lemma_trim_end_prefix(u);
    lemma_start_is_blank(s);
    lemma_end_is_blank(u);
    let a = s.take(s.len() - u.len());
    let b = u.skip(t.len() as int);
    assert(u == t + b) by {
        assert(u.take(t.len() as int) == t);
    }
    assert(s == a + u);
    assert(s == a + t + b);
    (a, b)
}

/// What comes off the front of a text is white space.
proof fn lemma_start_is_blank(s: Seq<char>)
    ensures
        trim_start(s).len() <= s.len(),
        is_blank(s.take(s.len() - trim_start(s).len())),
    decreases s.len(),
{
    if s.len() > 0 && is_white_space(s[0]) {
        let r = s.skip(1);
        lemma_start_is_blank(r);
        let n = s.len() - trim_start(s).len();
        assert forall|i: int| 0 <= i < n implies is_white_space(#[trigger] s.take(n)[i]) by {
            if i > 0 {
                assert(r.take(n - 1)[i - 1] == s.take(n)[i]);
            }
        }
    }
}

/// What comes off the end of a text is white space.
proof fn lemma_end_is_blank(s: Seq<char>)
    ensures
        trim_end(s).len() <= s.len(),
        is_blank(s.skip(trim_end(s).len() as int)),
    decreases s.len(),
{
    if s.len() > 0 && is_white_space(s.last()) {
        lemma_end_is_blank(s.drop_last());
        let n = trim_end(s).len() as int;
        assert forall|i: int| 0 <= i < s.skip(n).len() implies is_white_space(
            #[trigger] s.skip(n)[i],
        ) by {
            if i < s.len() - 1 - n {
                assert(s.drop_last().skip(n)[i] == s.skip(n)[i]);
            }
        }
    }
}

/// No quotation mark and no slash.
pub open spec fn is_plain_code(s: Seq<char>) -> bool {
    forall|i: int| 0 <= i < s.len() ==> #[trigger] s[i] != '"' && s[i] != '/'
}

/// What may stand between quotation marks: no mark by itself, and something behind
/// every backslash, which it escapes.
pub open spec fn is_string_body(s: Seq<char>) -> bool
    decreases s.len(),
{
    if s.len() == 0 {
        true
    } else if s[0] == '\\' {
        s.len() > 1 && is_string_body(s.skip(2))
    } else {
        s[0] != '"' && is_string_body(s.skip(1))
    }
}

/// Outside strings a text without quotation marks changes nothing.
proof fn lemma_scan_code(s: Seq<char>, m: int, n: int)
    requires
        0 <= m <= n <= s.len(),
        scan(CommentStyle::Slashes, s, m) == (false, false),
        forall|i: int| m <= i < n ==> #[trigger] s[i] != '"',
    ensures
        forall|i: int|
            m <= i <= n ==> #[trigger] scan(CommentStyle::Slashes, s, i) == (false, false),
    decreases n - m,
{
    if m < n {
        lemma_scan_code(s, m, n - 1);
        assert(s[n - 1] != '"');
        assert forall|i: int| m <= i <= n implies #[trigger] scan(CommentStyle::Slashes, s, i) == (
            false,
            false,
        ) by {
            if i == n {
                assert(scan(CommentStyle::Slashes, s, n - 1) == (false, false));
            }
        }
    }
}

/// Inside a string.
proof fn lemma_scan_string(s: Seq<char>, m: int, n: int)
    requires
        0 <= m <= n <= s.len(),
        scan(CommentStyle::Slashes, s, m) == (true, false),
        is_string_body(s.subrange(m, n)),
    ensures
        scan(CommentStyle::Slashes, s, n) == (true, false),
        forall|i: int| m <= i <= n ==> (#[trigger] scan(CommentStyle::Slashes, s, i)).0,
    decreases n - m,
{
    let body = s.subrange(m, n);
    if m < n {
        assert(body[0] == s[m]);
        if s[m] == '\\' {
            assert(body.skip(2) == s.subrange(m + 2, n));
            assert(scan(CommentStyle::Slashes, s, m + 1) == (true, true));
            assert(scan(CommentStyle::Slashes, s, m + 2) == (true, false));
            lemma_scan_string(s, m + 2, n);
        } else {
            assert(body.skip(1) == s.subrange(m + 1, n));
            assert(scan(CommentStyle::Slashes, s, m + 1) == (true, false));
            lemma_scan_string(s, m + 1, n);
        }
    }
}

/// Code before a comment: the state behind it, and that no comment opens in it.
proof fn lemma_code(first: Seq<char>, inner: Seq<char>, second: Seq<char>, s: Seq<char>)
    requires
        is_plain_code(first),
        is_string_body(inner),
        is_plain_code(second),
        begins(s, first + quoted(inner) + second),
    ensures
        ({
            let n = (first + quoted(inner) + second).len() as int;
            &&& scan(CommentStyle::Slashes, s, n) == (false, false)
            &&& forall|i: int|
                0 <= i < n ==> !#[trigger] opens_comment(CommentStyle::Slashes, s)(i)
        }),
{
    reveal_strlit("//");
    let code = first + quoted(inner) + second;
    let n = code.len() as int;
    let a = first.len() as int;
    let b = a + 1 + inner.len() as int;
    let g = opens_comment(CommentStyle::Slashes, s);
    assert(s.take(n) == code);
    assert forall|i: int| 0 <= i < n implies #[trigger] s[i] == code[i] by {
        assert(s.take(n)[i] == s[i]);
    }
    assert forall|i: int| 0 <= i < a implies #[trigger] s[i] != '"' && s[i] != '/' by {
        assert(code[i] == first[i]);
    }
    assert(code[a] == '"' && code[b] == '"');
    assert(s.subrange(a + 1, b) == code.subrange(a + 1, b));
    assert(code.subrange(a + 1, b) == inner);
    assert forall|i: int| b < i < n implies #[trigger] s[i] != '"' && s[i] != '/' by {
        assert(code[i] == second[i - b - 1]);
    }
    assert(scan(CommentStyle::Slashes, s, 0) == (false, false));
    lemma_scan_code(s, 0, a);
    assert(scan(CommentStyle::Slashes, s, a) == (false, false));
    assert(scan(CommentStyle::Slashes, s, a + 1) == (true, false));
    lemma_scan_string(s, a + 1, b);
    assert(scan(CommentStyle::Slashes, s, b) == (true, false));
    assert(s[b] == '"');
    assert(scan(CommentStyle::Slashes, s, b + 1) == (false, false));
    lemma_scan_code(s, b + 1, n);
    assert(scan(CommentStyle::Slashes, s, n) == (false, false));
    assert forall|i: int| 0 <= i < n implies !#[trigger] g(i) by {
        if g(i) {
            assert(s.subrange(i, i + 2)[0] == s[i]);
            assert(s[i] == '/');
            if a < i <= b {
                assert(scan(CommentStyle::Slashes, s, i).0);
            }
        }
    }
}

/// A comment behind two slashes comes off a line, with the white space before it; a
/// string that holds slashes stays, and a line without a comment stays as it is.
pub proof fn law_slash_comments(
    first: Seq<char>,
    inner: Seq<char>,
    second: Seq<char>,
    blank: Seq<char>,
    comment: Seq<char>,
)
    requires
        is_plain_code(first),
        is_string_body(inner),
        is_plain_code(second),
        second.len() > 0 ==> !is_white_space(second.last()),
        is_blank(blank),
    ensures
        ({
            let code = first + quoted(inner) + second;
            &&& uncommented(CommentStyle::Slashes, code + blank + seq!['/', '/'] + comment) == code
            &&& uncommented(CommentStyle::Slashes, code) == code
        }),
{
    reveal_strlit("//");
    let code = first + quoted(inner) + second;
    let s = code + blank + seq!['/', '/'] + comment;
    let n = code.len() as int;
    let k = n + blank.len() as int;
    let g = opens_comment(CommentStyle::Slashes, s);
    assert(s.take(n) == code);
    lemma_code(first, inner, second, s);
    assert forall|i: int| n <= i < k implies #[trigger] s[i] != '"' && s[i] != '/' by {
        assert(s[i] == blank[i - n]);
        assert(is_white_space(blank[i - n]));
    }
    lemma_scan_code(s, n, k);
    assert(scan(CommentStyle::Slashes, s, k) == (false, false));
    assert(s.subrange(k, k + 2) == "//"@);
    assert(g(k));
    assert forall|i: int| 0 <= i < k implies !#[trigger] g(i) by {
        if i >= n && g(i) {
            assert(s.subrange(i, i + 2)[0] == s[i]);
            assert(s[i] == '/');
        }
    }
    lemma_least_is(s.len() as int, g, k);
    assert(s.take(k) == code + blank);
    if second.len() > 0 {
        assert(code.last() == second.last());
    } else {
        assert(code.last() == '"');
    }
    lemma_trim_end_blank(code, blank);
    assert(code.take(n) == code);
    lemma_code(first, inner, second, code);
    lemma_least(code.len() as int, opens_comment(CommentStyle::Slashes, code));
}

} // verus!
