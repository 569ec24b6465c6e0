//! Requirement lines, piece by piece: what is written is what is read.
use vstd::prelude::*;
use vstd::utf8::encode_utf8;
use super::DependencyView;
use super::pypi::{
    constraint_start, extras_length, is_name_char, lemma_constraint_start, lemma_requirement,
    line_at, line_dependency, name_length, normal_name, requirement, requirements_txt,
    without_comment,
};
use crate::listing::{gather, lemma_gathered};
use crate::locate::{Position, Range};
use crate::text::chars::{is_blank, is_white_space};
use crate::text::lines::lines;
use crate::text::search::{
    begins, is_char, lemma_find_is, lemma_find_where, lemma_find_where_is, occurs_at,
};
use crate::text::trim::{
    lemma_trim_end_behind, lemma_trim_end_blank, lemma_trim_end_some, lemma_trim_start_blank, trim,
    trim_end, trim_start,
};

verus! {

/// A character of a package name.
pub open spec fn names_package(c: char) -> bool {
    ||| 'a' <= c && c <= 'z'
    ||| 'A' <= c && c <= 'Z'
    ||| '0' <= c && c <= '9'
    ||| c == '-'
    ||| c == '_'
    ||| c == '.'
}

/// A package name.
pub open spec fn is_package(name: Seq<char>) -> bool {
    name.len() > 0 && forall|i: int| 0 <= i < name.len() ==> names_package(#[trigger] name[i])
}

/// Extras in square brackets, or none.
pub open spec fn is_extras(extras: Seq<char>) -> bool {
    extras.len() > 0 ==> {
        &&& extras.len() > 1
        &&& extras[0] == '['
        &&& extras.last() == ']'
        &&& forall|i: int| 0 <= i < extras.len() - 1 ==> #[trigger] extras[i] != ']'
    }
}

/// Nothing but blanks.
pub open spec fn is_spaces(s: Seq<char>) -> bool {
    forall|i: int| 0 <= i < s.len() ==> #[trigger] s[i] == ' '
}

/// A comparison of versions.
pub open spec fn is_comparison(op: Seq<char>) -> bool {
    ||| op == "=="@
    ||| op == "!="@
    ||| op == ">="@
    ||| op == "<="@
    ||| op == "~="@
    ||| op == ">"@
    ||| op == "<"@
}

/// What the comparisons are made of.
proof fn lemma_comparison(op: Seq<char>)
    requires
        is_comparison(op),
    ensures
        0 < op.len() <= 2,
        op[0] == '=' || op[0] == '!' || op[0] == '>' || op[0] == '<' || op[0] == '~',
        op.len() == 2 ==> op[1] == '=',
{
    reveal_strlit("==");
    reveal_strlit("!=");
    reveal_strlit(">=");
    reveal_strlit("<=");
    reveal_strlit("~=");
    reveal_strlit(">");
    reveal_strlit("<");
}

/// The pieces of a requirement.
pub struct Written {
    pub name: Seq<char>,
    pub extras: Seq<char>,
    pub blanks: Seq<char>,
    pub op: Seq<char>,
    pub version: Seq<char>,
}

impl Written {
    /// The pieces are what they are meant to be.
    pub open spec fn valid(self) -> bool {
        &&& is_package(self.name)
        &&& is_extras(self.extras)
        &&& is_spaces(self.blanks)
        &&& is_comparison(self.op)
        &&& self.version.len() > 0
        &&& !is_white_space(self.version.last())
    }

    /// What stands before the constraint.
    pub open spec fn head(self) -> Seq<char> {
        self.name + self.extras + self.blanks
    }

    /// The constraint.
    pub open spec fn constraint(self) -> Seq<char> {
        self.op + self.version
    }

    /// The requirement.
    pub open spec fn text(self) -> Seq<char> {
        self.head() + self.constraint()
    }
}

/// Every requirement made of a package name, extras, blanks, a comparison and a
/// version is read: its name in normal form, and the comparison with the version
/// as its constraint, at the place where that stands.
pub proof fn law_requirement_is_read(w: Written)
    requires
        w.valid(),
    ensures
        requirement(w.text()) == Some((normal_name(w.name), w.constraint(), w.head().len() as int)),
{
    let s = w.text();
    let n = w.name.len() as int;
    let e = w.extras.len() as int;
    let b = w.blanks.len() as int;
    let f = |c: char| !is_name_char(c);
    let g = |c: char| c != ' ';
    lemma_comparison(w.op);
    reveal_strlit("[");
    assert(s == w.name + (w.extras + (w.blanks + w.constraint())));
    let behind = w.extras + (w.blanks + w.constraint());
    assert(s[n] == behind[0]);
    if e == 0 && b == 0 {
        assert(behind[0] == w.op[0]);
    } else if e == 0 {
        assert(behind[0] == w.blanks[0]);
    } else {
        assert(behind[0] == w.extras[0]);
    }
    assert forall|j: int| 0 <= j < n implies !f(s[j]) by {
        assert(s[j] == w.name[j]);
        assert(names_package(w.name[j]));
    }
    lemma_find_where_is(s, f, n);
    assert(name_length(s) == n);
    assert(s.skip(n) == behind);
    assert(behind.take(1).len() == 1);
    if e > 0 {
        assert(behind.take(1) == "["@);
        assert forall|j: int| 0 <= j < e - 1 implies !is_char(']')(behind[j]) by {
            assert(behind[j] == w.extras[j]);
        }
        assert(behind[e - 1] == w.extras[e - 1]);
        lemma_find_where_is(behind, is_char(']'), e - 1);
    } else {
        assert(behind.take(1)[0] != '[');
    }
    assert(extras_length(behind) == e);
    let rest = w.blanks + w.constraint();
    assert(s.skip(n + e) == rest);
    assert(rest[b] == w.op[0]);
    assert forall|j: int| 0 <= j < b implies !g(rest[j]) by {
        assert(rest[j] == w.blanks[j]);
    }
    lemma_find_where_is(rest, g, b);
    assert(constraint_start(s) == n + e + b);
    let c = w.constraint();
    assert(s.skip(n + e + b) == c);
    assert(c.take(w.op.len() as int) == w.op);
    assert(begins(c, w.op));
    assert(c.last() == w.version.last());
    assert(trim_end(c) == c);
    assert(s.take(n) == w.name);
}

/// The normal form of a name: letters in lower case, and `_` for every separator.
pub proof fn law_normal_name_by_characters(name: Seq<char>)
    ensures
        normal_name(name).len() == name.len(),
        forall|i: int|
            0 <= i < name.len() ==> #[trigger] normal_name(name)[i] == (if name[i] == '-' || name[i]
                == '.' || name[i] == '_' {
                '_'
            } else if 'A' <= name[i] && name[i] <= 'Z' {
                ((name[i] as u8) + 32) as char
            } else {
                name[i]
            }),
{
}

/// A requirement that is read is made of a package name and, somewhere behind it,
/// a constraint that begins with a comparison.
pub proof fn law_read_requirement_has_its_pieces(s: Seq<char>)
    requires
        requirement(s) is Some,
    ensures
        ({
            let (name, constraint, at) = requirement(s)->0;
            &&& 0 < name.len() <= at
            &&& is_package(s.take(name.len() as int))
            &&& name == normal_name(s.take(name.len() as int))
            &&& occurs_at(s, constraint, at)
            &&& exists|op: Seq<char>| #[trigger] is_comparison(op) && begins(constraint, op)
            &&& is_blank(s.skip(at + constraint.len()))
        }),
{
    let (name, constraint, at) = requirement(s)->0;
    let f = |c: char| !is_name_char(c);
    lemma_constraint_start(s);
    lemma_requirement(s);
    lemma_find_where(s, f);
    let n = name_length(s);
    assert forall|i: int| 0 <= i < n implies names_package(#[trigger] s.take(n)[i]) by {
        assert(!f(s[i]));
    }
    let rest = s.skip(at);
    let op = choose|op: Seq<char>| #[trigger] is_comparison(op) && begins(rest, op);
    assert(exists|op: Seq<char>| #[trigger] is_comparison(op) && begins(rest, op)) by {
        if begins(rest, "=="@) {
            assert(is_comparison("=="@));
        } else if begins(rest, "!="@) {
            assert(is_comparison("!="@));
        } else if begins(rest, ">="@) {
            assert(is_comparison(">="@));
        } else if begins(rest, "<="@) {
            assert(is_comparison("<="@));
        } else if begins(rest, "~="@) {
            assert(is_comparison("~="@));
        } else if begins(rest, ">"@) {
            assert(is_comparison(">"@));
        } else {
            assert(is_comparison("<"@));
        }
    }
    lemma_comparison(op);
    lemma_front_stays(rest, op);
    lemma_rest_is_blank(rest);
    assert(s.skip(at + constraint.len()) == rest.skip(constraint.len() as int));
}

/// What does not end with white space at the front of a text stays there.
proof fn lemma_front_stays(s: Seq<char>, p: Seq<char>)
    requires
        begins(s, p),
        p.len() > 0,
        !is_white_space(p.last()),
    ensures
        begins(trim_end(s), p),
    decreases s.len(),
{
    if is_white_space(s.last()) {
        if s.len() == p.len() {
            assert(s.take(p.len() as int) == s);
        }
        assert(s.drop_last().take(p.len() as int) == s.take(p.len() as int));
        lemma_front_stays(s.drop_last(), p);
    }
}

/// What comes off the end of a text is white space.
proof fn lemma_rest_is_blank(s: Seq<char>)
    ensures
        trim_end(s).len() <= s.len(),
        is_blank(s.skip(trim_end(s).len() as int)),
    decreases s.len(),
{
    if s.len() > 0 && is_white_space(s.last()) {
        lemma_rest_is_blank(s.drop_last());
        let n = trim_end(s).len() as int;
        assert forall|i: int| 0 <= i < s.skip(n).len() implies is_white_space(
            #[trigger] s.skip(n)[i],
        ) by {
            if i < s.len() - 1 - n {
                assert(s.drop_last().skip(n)[i] == s.skip(n)[i]);
            }
        }
    }
}

/// No blank stands before a number sign.
pub open spec fn has_no_comment(s: Seq<char>) -> bool {
    forall|i: int| 0 <= i < s.len() - 1 ==> !(#[trigger] s[i] == ' ' && s[i + 1] == '#')
}

/// What may stand behind a requirement: white space, or blanks and a comment.
pub open spec fn is_tail(spaces: Seq<char>, comment: Seq<char>) -> bool {
    if comment.len() == 0 {
        is_blank(spaces)
    } else {
        spaces.len() > 0 && is_spaces(spaces) && comment[0] == '#'
    }
}

/// A line without its comment and the white space around it.
proof fn lemma_line_text(indent: Seq<char>, s: Seq<char>, spaces: Seq<char>, comment: Seq<char>)
    requires
        is_blank(indent),
        s.len() > 0,
        !is_white_space(s[0]),
        !is_white_space(s.last()),
        has_no_comment(s),
        is_tail(spaces, comment),
    ensures
        ({
            let line = indent + s + spaces + comment;
            &&& trim_start(line) == s + spaces + comment
            &&& trim(line)[0] == s[0]
            &&& trim(line).len() > 0
            &&& without_comment(trim(line)) == s
        }),
{
    reveal_strlit(" #");
    let line = indent + s + spaces + comment;
    let u = s + spaces + comment;
    assert(line == indent + u);
    assert(u[0] == s[0]);
    lemma_trim_start_blank(indent, u);
    if comment.len() == 0 {
        assert(u == s + spaces);
        lemma_trim_end_blank(s, spaces);
        assert forall|i: int| !occurs_at(s, " #"@, i) by {
            if occurs_at(s, " #"@, i) {
                let part = s.subrange(i, i + 2);
                assert(part[0] == s[i] && part[1] == s[i + 1]);
                assert(part[0] == ' ' && part[1] == '#');
            }
        }
    } else {
        let front = s + spaces;
        let k = front.len() - 1;
        lemma_trim_end_some(comment);
        lemma_trim_end_behind(front, comment);
        let t = trim(line);
        assert(u == front + comment);
        assert(t == front + trim_end(comment));
        assert(t[k] == ' ' && t[k + 1] == '#');
        assert(t.subrange(k, k + 2) == " #"@);
        assert forall|j: int| 0 <= j < k implies !occurs_at(t, " #"@, j) by {
            if occurs_at(t, " #"@, j) {
                let part = t.subrange(j, j + 2);
                assert(part[0] == t[j] && part[1] == t[j + 1]);
                assert(t[j] == ' ' && t[j + 1] == '#');
                if j + 1 < s.len() {
                    assert(s[j] == t[j] && s[j + 1] == t[j + 1]);
                } else {
                    assert(t[j + 1] == spaces[j + 1 - s.len()]);
                }
            }
        }
        lemma_find_is(t, " #"@, k as int);
        assert(t.take(k as int) == s + spaces.drop_last());
        assert(is_blank(spaces.drop_last()));
        lemma_trim_end_blank(s, spaces.drop_last());
        assert(t[0] == s[0]);
    }
}

/// The range of a text behind a prefix on a line, as its bytes are counted.
pub open spec fn range_behind(line: int, prefix: Seq<char>, text: Seq<char>) -> Range {
    Range {
        start: Position { line: line as u32, character: encode_utf8(prefix).len() as u32 },
        end: Position {
            line: line as u32,
            character: (encode_utf8(prefix).len() + encode_utf8(text).len()) as u32,
        },
    }
}

/// Every line of a `requirements.txt` that holds a requirement declares it,
/// whatever white space or comment stands around it, and the range of its
/// constraint is where that stands.
pub proof fn law_requirement_line_declares(
    content: Seq<char>,
    i: int,
    indent: Seq<char>,
    w: Written,
    spaces: Seq<char>,
    comment: Seq<char>,
)
    requires
        0 <= i < lines(content).len(),
        lines(content)[i] == indent + w.text() + spaces + comment,
        is_blank(indent),
        w.valid(),
        w.name[0] != '-',
        w.name[0] != '.',
        has_no_comment(w.text()),
        is_tail(spaces, comment),
    ensures
        requirements_txt(content).contains(
            (DependencyView {
                name: normal_name(w.name),
                constraint: w.constraint(),
                range: range_behind(i, indent + w.head(), w.constraint()),
            }),
        ),
{
    let ls = lines(content);
    let line = ls[i];
    let s = w.text();
    assert(names_package(w.name[0]));
    assert(s[0] == w.name[0]);
    assert(s.last() == w.version.last());
    lemma_line_text(indent, s, spaces, comment);
    law_requirement_is_read(w);
    let k = line.len() - trim_start(line).len() + w.head().len();
    assert(line.take(k as int) == indent + w.head());
    let dep = DependencyView {
        name: normal_name(w.name),
        constraint: w.constraint(),
        range: range_behind(i, indent + w.head(), w.constraint()),
    };
    assert(line_dependency(i, line) == Some(dep));
    let at = line_at(ls);
    assert(at(i) == Some(dep));
    lemma_gathered(ls.len() as int, at, i);
    let j = choose|j: int|
        0 <= j < requirements_txt(content).len() && #[trigger] gather(ls.len() as int, at)[j]
            == dep;
    assert(requirements_txt(content)[j] == dep);
}

/// A blank line, a comment, an option and a path declare nothing.
pub proof fn law_other_lines_declare_nothing(i: int, indent: Seq<char>, rest: Seq<char>)
    requires
        is_blank(indent),
        rest.len() > 0 ==> rest[0] == '#' || rest[0] == '-' || rest[0] == '.',
    ensures
        line_dependency(i, indent + rest) is None,
{
    let line = indent + rest;
    if rest.len() > 0 {
        lemma_trim_start_blank(indent, rest);
        lemma_trim_end_some(rest);
    } else {
        assert(line == indent);
        lemma_blank_trims(indent);
    }
}

/// Nothing is left of white space.
proof fn lemma_blank_trims(s: Seq<char>)
    requires
        is_blank(s),
    ensures
        trim_start(s).len() == 0,
    decreases s.len(),
{
    if s.len() > 0 {
        lemma_blank_trims(s.skip(1));
    }
}

} // verus!
