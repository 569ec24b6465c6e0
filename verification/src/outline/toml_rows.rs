//! TOML documents with one entry per line: their outline holds the strings of
//! their entries, and nothing else.
use vstd::prelude::*;
use super::{address_of, is_simple, under, KeyView, PlaceView, SpotView, StepView};
use super::toml::{
    header_end, keyed, no_key, toml_line, toml_line_start, toml_lines, toml_outline, toml_step,
    tripled, TomlView,
};
use crate::listing::{gather, lemma_gather, lemma_gathered};
use crate::locate::quoted;
use crate::text::chars::{is_blank, is_white_space};

verus! {

/// A character of a key that is written without quotation marks.
pub open spec fn is_bare(c: char) -> bool {
    !is_white_space(c) && c != '"' && c != '\'' && c != '#' && c != '[' && c != ']' && c != '{' && c
        != '}' && c != ',' && c != '.' && c != '='
}

/// A key that is written without quotation marks.
pub open spec fn is_bare_key(s: Seq<char>) -> bool {
    s.len() > 0 && forall|i: int| 0 <= i < s.len() ==> is_bare(#[trigger] s[i])
}

/// What may follow a string in an inline table, as far as that goes without
/// strings, lists and tables.
pub open spec fn is_tail(s: Seq<char>) -> bool {
    forall|i: int|
        0 <= i < s.len() ==> #[trigger] s[i] != '"' && s[i] != '\'' && s[i] != '#' && s[i] != '['
            && s[i] != ']' && s[i] != '{' && s[i] != '}'
}

/// A key and its equals sign, with white space around the sign.
pub open spec fn key_text(key: Seq<char>, before: Seq<char>, behind: Seq<char>) -> Seq<char> {
    key + before + seq!['='] + behind
}

/// The first `n` parts with dots between them.
pub open spec fn dotted(parts: Seq<Seq<char>>, n: int) -> Seq<char>
    decreases n,
{
    if n <= 0 {
        seq![]
    } else if n == 1 {
        parts[0]
    } else {
        dotted(parts, n - 1).push('.') + parts[n - 1]
    }
}

/// An entry: a key with its sign.
pub struct EntryKey {
    pub key: Seq<char>,
    pub before: Seq<char>,
    pub behind: Seq<char>,
}

impl EntryKey {
    /// The key as it is written.
    pub open spec fn text(self) -> Seq<char> {
        key_text(self.key, self.before, self.behind)
    }

    /// The parts are what they stand for.
    pub open spec fn valid(self) -> bool {
        is_bare_key(self.key) && is_blank(self.before) && is_blank(self.behind)
    }
}

/// What a line says.
pub enum TomlBody {
    /// The header of a table.
    Header { parts: Seq<Seq<char>> },
    /// A key whose value is a string.
    Text { own: EntryKey, value: Seq<char> },
    /// A key whose value is an inline table that begins with a string.
    Inline {
        own: EntryKey,
        gap: Seq<char>,
        inner: EntryKey,
        value: Seq<char>,
        tail: Seq<char>,
    },
    /// Nothing.
    Nothing,
}

/// A line of a document: what it says, the white space around that, and a
/// comment.
pub struct TomlRow {
    pub lead: Seq<char>,
    pub body: TomlBody,
    pub trail: Seq<char>,
    pub comment: Seq<char>,
}

/// What a line says, as it is written.
pub open spec fn body_text(body: TomlBody) -> Seq<char> {
    match body {
        TomlBody::Header { parts } => seq!['['] + dotted(parts, parts.len() as int) + seq![']'],
        TomlBody::Text { own, value } => own.text() + quoted(value),
        TomlBody::Inline { own, gap, inner, value, tail } => own.text() + seq!['{'] + gap
            + inner.text() + quoted(value) + tail + seq!['}'],
        TomlBody::Nothing => seq![],
    }
}

/// A line as it is written.
pub open spec fn row_text(row: TomlRow) -> Seq<char> {
    row.lead + body_text(row.body) + row.trail + row.comment
}

/// The lines of a document.
pub open spec fn row_lines(rows: Seq<TomlRow>) -> Seq<Seq<char>> {
    rows.map_values(|row: TomlRow| row_text(row))
}

/// The parts of a line are what they stand for.
pub open spec fn is_row(row: TomlRow) -> bool {
    &&& is_blank(row.lead)
    &&& is_blank(row.trail)
    &&& row.comment.len() > 0 ==> row.comment[0] == '#'
    &&& match row.body {
        TomlBody::Header { parts } => parts.len() > 0 && forall|i: int|
            0 <= i < parts.len() ==> is_bare_key(#[trigger] parts[i]),
        TomlBody::Text { own, value } => own.valid() && is_simple(value),
        TomlBody::Inline { own, gap, inner, value, tail } => own.valid() && is_blank(gap)
            && inner.valid() && is_simple(value) && is_tail(tail),
        TomlBody::Nothing => true,
    }
}

/// All lines are such lines.
pub open spec fn is_document(rows: Seq<TomlRow>) -> bool {
    forall|i: int| 0 <= i < rows.len() ==> is_row(#[trigger] rows[i])
}

/// The keys of the table that the first `n` lines leave open.
pub open spec fn table(rows: Seq<TomlRow>, n: int) -> Seq<Seq<char>>
    decreases n,
{
    if n <= 0 {
        seq![]
    } else {
        match rows[n - 1].body {
            TomlBody::Header { parts } => parts,
            _ => table(rows, n - 1),
        }
    }
}

/// A line that has a string.
pub open spec fn has_text(row: TomlRow) -> bool {
    row.body is Text || row.body is Inline
}

/// The keys under which the string of line `i` stands: those of the table and
/// its own.
pub open spec fn keys_at(rows: Seq<TomlRow>, i: int) -> Seq<Seq<char>> {
    match rows[i].body {
        TomlBody::Text { own, value } => table(rows, i).push(own.key),
        TomlBody::Inline { own, gap, inner, value, tail } => table(rows, i).push(own.key).push(
            inner.key,
        ),
        _ => table(rows, i),
    }
}

/// The string of a line.
pub open spec fn value_of(row: TomlRow) -> Seq<char> {
    match row.body {
        TomlBody::Text { own, value } => value,
        TomlBody::Inline { own, gap, inner, value, tail } => value,
        _ => seq![],
    }
}

/// The index at which the string of a line begins.
pub open spec fn value_start(row: TomlRow) -> int {
    match row.body {
        TomlBody::Text { own, value } => row.lead.len() as int + own.text().len() + 1,
        TomlBody::Inline { own, gap, inner, value, tail } => row.lead.len() as int
            + own.text().len() + 1 + gap.len() + inner.text().len() + 1,
        _ => 0,
    }
}

/// A string is the one of line `i`, under its keys.
pub open spec fn is_value_of(spot: SpotView, rows: Seq<TomlRow>, i: int) -> bool {
    &&& has_text(rows[i])
    &&& spot.line == i
    &&& spot.at == value_start(rows[i])
    &&& spot.text == value_of(rows[i])
    &&& address_of(spot.path) == under(keys_at(rows, i))
}

/// The numbers of the lines that have a string.
pub open spec fn text_row(rows: Seq<TomlRow>) -> spec_fn(int) -> Option<int> {
    |i: int|
        if has_text(rows[i]) {
            Some(i)
        } else {
            None
        }
}

/// The lines that have a string.
pub open spec fn text_rows(rows: Seq<TomlRow>, n: int) -> Seq<int> {
    gather(n, text_row(rows))
}

/// The characters of line `i` from index `a` to index `b` are read.
pub open spec fn read(st: TomlView, line: Seq<char>, i: int, a: int, b: int) -> TomlView
    decreases b - a,
{
    if b <= a {
        st
    } else {
        toml_step(read(st, line, i, a, b - 1), line, i, b - 1)
    }
}

pub proof fn lemma_read_line(st: TomlView, line: Seq<char>, i: int, n: int)
    requires
        0 <= n,
    ensures
        toml_line(st, line, i, n) == read(toml_line_start(st), line, i, 0, n),
    decreases n,
{
    if n > 0 {
        lemma_read_line(st, line, i, n - 1);
    }
}

pub proof fn lemma_read_on(st: TomlView, line: Seq<char>, i: int, a: int, b: int, c: int)
    requires
        a <= b <= c,
    ensures
        read(st, line, i, a, c) == read(read(st, line, i, a, b), line, i, b, c),
    decreases c - b,
{
    if b < c {
        lemma_read_on(st, line, i, a, b, c - 1);
    }
}

/// The reading is outside strings, headers and comments.
pub open spec fn is_calm(st: TomlView) -> bool {
    st.passed == 0 && !st.ended && st.quote is None && !st.naming && !st.escaped && !st.triple
}

/// Nothing is left open.
pub open spec fn is_settled(st: TomlView) -> bool {
    st.frames.len() == 0 && !st.triple
}

/// White space changes nothing.
pub proof fn lemma_read_blank(st: TomlView, line: Seq<char>, i: int, a: int, b: int)
    requires
        is_calm(st),
        forall|k: int| a <= k < b ==> is_white_space(#[trigger] line[k]),
    ensures
        read(st, line, i, a, b) == st,
    decreases b - a,
{
    if a < b {
        lemma_read_blank(st, line, i, a, b - 1);
        assert(is_white_space(line[b - 1]));
    }
}

/// Behind its end nothing of a line counts.
pub proof fn lemma_read_ended(st: TomlView, line: Seq<char>, i: int, a: int, b: int)
    requires
        st.ended,
        st.passed == 0,
    ensures
        read(st, line, i, a, b) == st,
    decreases b - a,
{
    if a < b {
        lemma_read_ended(st, line, i, a, b - 1);
    }
}

/// A key without quotation marks is read.
proof fn lemma_read_bare(st: TomlView, line: Seq<char>, i: int, a: int, key: Seq<char>)
    requires
        st.passed == 0,
        !st.ended,
        st.quote is None,
        st.naming || !st.value,
        st.part.text.len() == 0,
        is_bare_key(key),
        0 <= a,
        a + key.len() <= line.len(),
        line.subrange(a, a + key.len()) == key,
    ensures
        read(st, line, i, a, a + key.len()) == (TomlView {
            part: KeyView { text: key, line: i, at: a },
            ..st
        }),
    decreases key.len(),
{
    let n = key.len() as int;
    assert forall|k: int| 0 <= k < n implies line[a + k] == #[trigger] key[k] by {
        assert(line.subrange(a, a + n)[k] == line[a + k]);
    }
    let last = line[a + n - 1];
    assert(is_bare(key[n - 1]));
    if n == 1 {
        reveal_with_fuel(read, 2);
        assert(seq![last] == key);
    } else {
        let front = key.drop_last();
        assert forall|k: int| 0 <= k < front.len() implies is_bare(#[trigger] front[k]) by {
            assert(is_bare(key[k]));
        }
        assert(line.subrange(a, a + front.len()) == front);
        lemma_read_bare(st, line, i, a, front);
        assert(front.push(last) == key);
    }
}

/// A key and its sign are read.
pub proof fn lemma_read_key(st: TomlView, line: Seq<char>, i: int, a: int, own: EntryKey)
    requires
        is_calm(st),
        !st.value,
        st.part.text.len() == 0,
        own.valid(),
        0 <= a,
        a + own.text().len() <= line.len(),
        line.subrange(a, a + own.text().len()) == own.text(),
    ensures
        read(st, line, i, a, a + own.text().len()) == (TomlView {
            path: st.path.push(StepView::Key(KeyView { text: own.key, line: i, at: a })),
            part: no_key(),
            value: true,
            ..st
        }),
{
    let text = own.text();
    let b = a + own.key.len();
    let c = b + own.before.len();
    let d = c + 1 + own.behind.len();
    assert(text.len() == d - a);
    assert forall|k: int| a <= k < d implies #[trigger] line[k] == text[k - a] by {
        assert(line.subrange(a, d)[k - a] == line[k]);
    }
    assert(line.subrange(a, b) == own.key);
    lemma_read_bare(st, line, i, a, own.key);
    let one = TomlView { part: KeyView { text: own.key, line: i, at: a }, ..st };
    assert forall|k: int| b <= k < c implies is_white_space(#[trigger] line[k]) by {
        assert(line[k] == own.before[k - b]);
    }
    lemma_read_on(st, line, i, a, b, c);
    lemma_read_blank(one, line, i, b, c);
    assert(line[c] == '=');
    let two = TomlView { value: true, ..keyed(one) };
    assert(read(st, line, i, a, c + 1) == two);
    assert forall|k: int| c + 1 <= k < d implies is_white_space(#[trigger] line[k]) by {
        assert(line[k] == own.behind[k - c - 1]);
    }
    lemma_read_on(st, line, i, a, c + 1, d);
    lemma_read_blank(two, line, i, c + 1, d);
}

/// Inside a string nothing but its end counts.
proof fn lemma_read_inside(st: TomlView, line: Seq<char>, i: int, a: int, b: int)
    requires
        st.passed == 0,
        !st.ended,
        !st.escaped,
        st.quote == Some('"'),
        forall|k: int| a <= k < b ==> #[trigger] line[k] != '"' && line[k] != '\\',
    ensures
        read(st, line, i, a, b) == st,
    decreases b - a,
{
    if a < b {
        lemma_read_inside(st, line, i, a, b - 1);
        assert(line[b - 1] != '"');
    }
}

/// A string is read as a whole.
pub proof fn lemma_read_string(st: TomlView, line: Seq<char>, i: int, a: int, text: Seq<char>)
    requires
        is_calm(st),
        st.value,
        0 <= a,
        a + text.len() + 2 <= line.len(),
        line.subrange(a, a + text.len() + 2) == quoted(text),
        is_simple(text),
        a + text.len() + 2 < line.len() ==> line[a + text.len() + 2] != '"',
    ensures
        ({
            let now = read(st, line, i, a, a + text.len() + 2);
            &&& is_calm(now)
            &&& now.value
            &&& now.path == st.path
            &&& now.frames == st.frames
            &&& now.header == st.header
            &&& now.spots == st.spots.push(
                SpotView { path: st.path, line: i, at: a + 1, text },
            )
        }),
{
    let b = a + text.len() + 2;
    let q = quoted(text);
    assert forall|k: int| a <= k < b implies #[trigger] line[k] == q[k - a] by {
        assert(line.subrange(a, b)[k - a] == line[k]);
    }
    assert(line[a] == '"' && line[b - 1] == '"');
    assert(!tripled(line, a)) by {
        if text.len() > 0 {
            assert(line[a + 1] == text[0]);
        }
    }
    let inner = TomlView { quote: Some('"'), triple: false, here: true, start: a + 1, ..st };
    assert forall|k: int| a + 1 <= k < b - 1 implies #[trigger] line[k] != '"' && line[k]
        != '\\' by {
        assert(line[k] == text[k - a - 1]);
    }
    lemma_read_on(st, line, i, a, a + 1, b - 1);
    reveal_with_fuel(read, 2);
    assert(read(st, line, i, a, a + 1) == inner);
    lemma_read_inside(inner, line, i, a + 1, b - 1);
    assert(line.subrange(a + 1, b - 1) == text);
}

/// What follows a string in an inline table adds none.
proof fn lemma_read_tail(st: TomlView, line: Seq<char>, i: int, a: int, b: int)
    requires
        is_calm(st),
        st.frames.len() == 1,
        forall|k: int|
            a <= k < b ==> #[trigger] line[k] != '"' && line[k] != '\'' && line[k] != '#' && line[k]
                != '[' && line[k] != ']' && line[k] != '{' && line[k] != '}',
    ensures
        ({
            let now = read(st, line, i, a, b);
            &&& is_calm(now)
            &&& now.frames == st.frames
            &&& now.header == st.header
            &&& now.spots == st.spots
        }),
    decreases b - a,
{
    if a < b {
        lemma_read_tail(st, line, i, a, b - 1);
        assert(line[b - 1] != '"');
    }
}

/// The parts of a header are read.
proof fn lemma_read_parts(
    st: TomlView,
    line: Seq<char>,
    i: int,
    a: int,
    parts: Seq<Seq<char>>,
    n: int,
)
    requires
        0 < n <= parts.len(),
        forall|j: int| 0 <= j < parts.len() ==> is_bare_key(#[trigger] parts[j]),
        st.passed == 0,
        !st.ended,
        st.quote is None,
        st.naming,
        st.path.len() == 0,
        st.part.text.len() == 0,
        0 <= a,
        a + dotted(parts, n).len() <= line.len(),
        line.subrange(a, a + dotted(parts, n).len()) == dotted(parts, n),
    ensures
        ({
            let now = read(st, line, i, a, a + dotted(parts, n).len());
            let done = KeyView { text: parts[n - 1], line: i, at: now.part.at };
            &&& now == (TomlView { path: now.path, part: done, ..st })
            &&& address_of(now.path) == under(parts.take(n - 1))
        }),
    decreases n,
{
    let text = dotted(parts, n);
    let b = a + text.len();
    assert forall|k: int| a <= k < b implies #[trigger] line[k] == text[k - a] by {
        assert(line.subrange(a, b)[k - a] == line[k]);
    }
    if n == 1 {
        lemma_read_bare(st, line, i, a, parts[0]);
        assert(address_of(st.path) == under(parts.take(0)));
    } else {
        let front = dotted(parts, n - 1);
        let c = a + front.len();
        assert(line.subrange(a, c) == front);
        lemma_read_parts(st, line, i, a, parts, n - 1);
        let one = read(st, line, i, a, c);
        assert(line[c] == '.');
        assert(parts[n - 2].len() > 0) by {
            assert(is_bare_key(parts[n - 2]));
        }
        let two = keyed(one);
        assert(read(st, line, i, a, c + 1) == two);
        assert(line.subrange(c + 1, b) == parts[n - 1]);
        lemma_read_on(st, line, i, a, c + 1, b);
        lemma_read_bare(two, line, i, c + 1, parts[n - 1]);
        assert(parts.take(n - 1) == parts.take(n - 2).push(parts[n - 2]));
        assert(address_of(two.path) == address_of(one.path).push(PlaceView::Key(parts[n - 2])));
        assert(under(parts.take(n - 1)) == under(parts.take(n - 2)).push(
            PlaceView::Key(parts[n - 2]),
        ));
    }
}

/// A line is about to be read.
spec fn is_ready(st: TomlView, rows: Seq<TomlRow>, i: int) -> bool {
    &&& is_row(rows[i])
    &&& is_calm(st)
    &&& st.frames.len() == 0
    &&& !st.value
    &&& st.part.text.len() == 0
    &&& st.path == st.header
    &&& address_of(st.header) == under(table(rows, i))
}

/// The reading behind what a line says.
spec fn behind_body(st: TomlView, row: TomlRow, i: int) -> TomlView {
    let a = row.lead.len() as int;
    read(st, row_text(row), i, a, a + body_text(row.body).len())
}

/// What a line says stands behind its white space.
proof fn lemma_body_stands(row: TomlRow)
    requires
        is_row(row),
    ensures
        ({
            let line = row_text(row);
            let a = row.lead.len() as int;
            let b = a + body_text(row.body).len() as int;
            &&& b <= line.len()
            &&& line.subrange(a, b) == body_text(row.body)
            &&& forall|k: int| a <= k < b ==> #[trigger] line[k] == body_text(row.body)[k - a]
            &&& b < line.len() ==> line[b] != '"'
        }),
{
    let line = row_text(row);
    let a = row.lead.len() as int;
    let text = body_text(row.body);
    let b = a + text.len() as int;
    assert(line.subrange(a, b) == text);
    assert forall|k: int| a <= k < b implies #[trigger] line[k] == text[k - a] by {
        assert(line.subrange(a, b)[k - a] == line[k]);
    }
    if b < line.len() {
        if row.trail.len() > 0 {
            assert(line[b] == row.trail[0]);
        } else {
            assert(line[b] == row.comment[0]);
        }
    }
}

/// A header is read.
proof fn lemma_read_header(st: TomlView, rows: Seq<TomlRow>, i: int, parts: Seq<Seq<char>>)
    requires
        is_ready(st, rows, i),
        rows[i].body == (TomlBody::Header { parts }),
    ensures
        ({
            let now = behind_body(st, rows[i], i);
            &&& now.passed == 0
            &&& now.ended
            &&& is_settled(now)
            &&& address_of(now.header) == under(parts)
            &&& now.spots == st.spots
        }),
{
    let line = row_text(rows[i]);
    let a = rows[i].lead.len() as int;
    let b = a + body_text(rows[i].body).len() as int;
    lemma_body_stands(rows[i]);
    let n = parts.len() as int;
    let names = dotted(parts, n);
    assert(line[a] == '[' && line[b - 1] == ']');
    let one = TomlView {
        naming: true,
        double: false,
        path: seq![],
        part: no_key(),
        ..st
    };
    reveal_with_fuel(read, 2);
    assert(read(st, line, i, a, a + 1) == one);
    assert(line.subrange(a + 1, b - 1) == names);
    lemma_read_on(st, line, i, a, a + 1, b - 1);
    lemma_read_parts(one, line, i, a + 1, parts, n);
    let two = read(one, line, i, a + 1, b - 1);
    assert(is_bare_key(parts[n - 1]));
    let now = read(st, line, i, a, b);
    assert(now == header_end(two));
    assert(address_of(now.header) == address_of(two.path).push(
        PlaceView::Key(parts[n - 1]),
    ));
    assert(under(parts) == under(parts.take(n - 1)).push(PlaceView::Key(parts[n - 1])));
}

/// A key and its string are read.
proof fn lemma_read_text(
    st: TomlView,
    rows: Seq<TomlRow>,
    i: int,
    own: EntryKey,
    value: Seq<char>,
)
    requires
        is_ready(st, rows, i),
        rows[i].body == (TomlBody::Text { own, value }),
    ensures
        ({
            let now = behind_body(st, rows[i], i);
            &&& is_calm(now)
            &&& is_settled(now)
            &&& now.header == st.header
            &&& now.spots == st.spots.push(now.spots.last())
            &&& is_value_of(now.spots.last(), rows, i)
        }),
{
    let line = row_text(rows[i]);
    let a = rows[i].lead.len() as int;
    let b = a + body_text(rows[i].body).len() as int;
    lemma_body_stands(rows[i]);
    let c = a + own.text().len() as int;
    assert(line.subrange(a, c) == own.text());
    lemma_read_key(st, line, i, a, own);
    let one = read(st, line, i, a, c);
    assert(line.subrange(c, b) == quoted(value));
    lemma_read_on(st, line, i, a, c, b);
    lemma_read_string(one, line, i, c, value);
    assert(address_of(one.path) == address_of(st.path).push(PlaceView::Key(own.key)));
    assert(under(keys_at(rows, i)) == under(table(rows, i)).push(
        PlaceView::Key(own.key),
    ));
}

/// How a line with an inline table is written.
proof fn lemma_inline_layout(
    row: TomlRow,
    own: EntryKey,
    gap: Seq<char>,
    inner: EntryKey,
    value: Seq<char>,
    tail: Seq<char>,
)
    requires
        is_row(row),
        row.body == (TomlBody::Inline { own, gap, inner, value, tail }),
    ensures
        ({
            let line = row_text(row);
            let a = row.lead.len() as int;
            let b = a + body_text(row.body).len() as int;
            let c = a + own.text().len() as int;
            let d = c + 1 + gap.len() as int;
            let e = d + inner.text().len() as int;
            let f = e + value.len() as int + 2;
            &&& b == f + tail.len() + 1
            &&& b <= line.len()
            &&& line.subrange(a, c) == own.text()
            &&& line[c] == '{'
            &&& forall|k: int| c + 1 <= k < d ==> is_white_space(#[trigger] line[k])
            &&& line.subrange(d, e) == inner.text()
            &&& line.subrange(e, f) == quoted(value)
            &&& line[f] != '"'
            &&& is_tail(line.subrange(f, b - 1))
            &&& line[b - 1] == '}'
        }),
{
    let line = row_text(row);
    let a = row.lead.len() as int;
    let b = a + body_text(row.body).len() as int;
    let c = a + own.text().len() as int;
    let d = c + 1 + gap.len() as int;
    let e = d + inner.text().len() as int;
    let f = e + value.len() as int + 2;
    lemma_body_stands(row);
    assert(b == f + tail.len() + 1);
    assert(line.subrange(a, c) == own.text());
    assert(line[c] == '{');
    assert forall|k: int| c + 1 <= k < d implies is_white_space(#[trigger] line[k]) by {
        assert(line[k] == gap[k - c - 1]);
    }
    assert(line.subrange(d, e) == inner.text());
    assert(line.subrange(e, f) == quoted(value));
    assert(line.subrange(f, b - 1) == tail);
    assert(line[b - 1] == '}');
    if tail.len() > 0 {
        assert(line[f] == tail[0]);
    }
}

/// The keys of an inline table are read.
proof fn lemma_read_inline_keys(
    st: TomlView,
    rows: Seq<TomlRow>,
    i: int,
    own: EntryKey,
    gap: Seq<char>,
    inner: EntryKey,
    value: Seq<char>,
    tail: Seq<char>,
)
    requires
        is_ready(st, rows, i),
        rows[i].body == (TomlBody::Inline { own, gap, inner, value, tail }),
    ensures
        ({
            let a = rows[i].lead.len() as int;
            let e = a + own.text().len() + 1 + gap.len() + inner.text().len();
            let now = read(st, row_text(rows[i]), i, a, e);
            &&& is_calm(now)
            &&& now.value
            &&& now.frames.len() == 1
            &&& now.header == st.header
            &&& now.spots == st.spots
            &&& address_of(now.path) == under(keys_at(rows, i))
        }),
{
    let line = row_text(rows[i]);
    let a = rows[i].lead.len() as int;
    let c = a + own.text().len() as int;
    let d = c + 1 + gap.len() as int;
    let e = d + inner.text().len() as int;
    lemma_inline_layout(rows[i], own, gap, inner, value, tail);
    lemma_read_key(st, line, i, a, own);
    let one = read(st, line, i, a, c);
    let two = read(st, line, i, a, c + 1);
    assert(two.frames.len() == 1 && !two.value && two.path == one.path && is_calm(two));
    lemma_read_on(st, line, i, a, c + 1, d);
    lemma_read_blank(two, line, i, c + 1, d);
    lemma_read_on(st, line, i, a, d, e);
    lemma_read_key(two, line, i, d, inner);
    let three = read(two, line, i, d, e);
    let outer = address_of(st.path).push(PlaceView::Key(own.key));
    assert(address_of(one.path) == outer);
    assert(address_of(three.path) == outer.push(PlaceView::Key(inner.key)));
    assert(under(keys_at(rows, i)) == under(table(rows, i)).push(PlaceView::Key(own.key)).push(
        PlaceView::Key(inner.key),
    ));
}

/// An inline table is read.
proof fn lemma_read_inline(
    st: TomlView,
    rows: Seq<TomlRow>,
    i: int,
    own: EntryKey,
    gap: Seq<char>,
    inner: EntryKey,
    value: Seq<char>,
    tail: Seq<char>,
)
    requires
        is_ready(st, rows, i),
        rows[i].body == (TomlBody::Inline { own, gap, inner, value, tail }),
    ensures
        ({
            let now = behind_body(st, rows[i], i);
            &&& is_calm(now)
            &&& is_settled(now)
            &&& now.header == st.header
            &&& now.spots == st.spots.push(now.spots.last())
            &&& is_value_of(now.spots.last(), rows, i)
        }),
{
    let line = row_text(rows[i]);
    let a = rows[i].lead.len() as int;
    let b = a + body_text(rows[i].body).len() as int;
    let e = a + own.text().len() + 1 + gap.len() + inner.text().len();
    let f = e + value.len() as int + 2;
    lemma_inline_layout(rows[i], own, gap, inner, value, tail);
    lemma_read_inline_keys(st, rows, i, own, gap, inner, value, tail);
    let three = read(st, line, i, a, e);
    lemma_read_on(st, line, i, a, e, f);
    lemma_read_string(three, line, i, e, value);
    let four = read(three, line, i, e, f);
    assert forall|k: int| f <= k < b - 1 implies #[trigger] line[k] != '"' && line[k] != '\''
        && line[k] != '#' && line[k] != '[' && line[k] != ']' && line[k] != '{' && line[k]
        != '}' by {
        assert(line.subrange(f, b - 1)[k - f] == line[k]);
    }
    lemma_read_on(st, line, i, a, f, b - 1);
    lemma_read_tail(four, line, i, f, b - 1);
}

/// What a line says is read.
proof fn lemma_read_body(st: TomlView, rows: Seq<TomlRow>, i: int)
    requires
        is_ready(st, rows, i),
        0 <= i,
    ensures
        ({
            let row = rows[i];
            let now = behind_body(st, row, i);
            &&& now.passed == 0
            &&& is_settled(now)
            &&& now.ended || is_calm(now)
            &&& address_of(now.header) == under(table(rows, i + 1))
            &&& has_text(row) ==> now.spots == st.spots.push(now.spots.last()) && is_value_of(
                now.spots.last(),
                rows,
                i,
            )
            &&& !has_text(row) ==> now.spots == st.spots
        }),
{
    match rows[i].body {
        TomlBody::Header { parts } => {
            lemma_read_header(st, rows, i, parts);
        },
        TomlBody::Text { own, value } => {
            lemma_read_text(st, rows, i, own, value);
        },
        TomlBody::Inline { own, gap, inner, value, tail } => {
            lemma_read_inline(st, rows, i, own, gap, inner, value, tail);
        },
        TomlBody::Nothing => {},
    }
}

/// What holds of the reading behind the first `n` lines.
pub open spec fn keeps_up(rows: Seq<TomlRow>, n: int) -> bool {
    let st = toml_lines(row_lines(rows), n);
    let list = text_rows(rows, n);
    &&& is_settled(st)
    &&& address_of(st.header) == under(table(rows, n))
    &&& st.spots.len() == list.len()
    &&& forall|m: int|
        0 <= m < list.len() ==> is_value_of(#[trigger] st.spots[m], rows, list[m])
}

/// A line is read.
proof fn lemma_read_row(st: TomlView, rows: Seq<TomlRow>, i: int)
    requires
        is_row(rows[i]),
        is_settled(st),
        address_of(st.header) == under(table(rows, i)),
        0 <= i,
    ensures
        ({
            let row = rows[i];
            let now = toml_line(st, row_text(row), i, row_text(row).len() as int);
            &&& is_settled(now)
            &&& address_of(now.header) == under(table(rows, i + 1))
            &&& has_text(row) ==> now.spots == st.spots.push(now.spots.last()) && is_value_of(
                now.spots.last(),
                rows,
                i,
            )
            &&& !has_text(row) ==> now.spots == st.spots
        }),
{
    let row = rows[i];
    let line = row_text(row);
    let start = toml_line_start(st);
    let a = row.lead.len() as int;
    let b = a + body_text(row.body).len() as int;
    let c = b + row.trail.len() as int;
    let n = line.len() as int;
    lemma_read_line(st, line, i, n);
    assert forall|k: int| 0 <= k < a implies is_white_space(#[trigger] line[k]) by {
        assert(line[k] == row.lead[k]);
    }
    lemma_read_on(start, line, i, 0, a, n);
    lemma_read_blank(start, line, i, 0, a);
    lemma_read_body(start, rows, i);
    let one = read(start, line, i, a, b);
    lemma_read_on(start, line, i, a, b, n);
    if one.ended {
        lemma_read_ended(one, line, i, b, n);
    } else {
        assert forall|k: int| b <= k < c implies is_white_space(#[trigger] line[k]) by {
            assert(line[k] == row.trail[k - b]);
        }
        lemma_read_on(one, line, i, b, c, n);
        lemma_read_blank(one, line, i, b, c);
        if c < n {
            assert(line[c] == row.comment[0]);
            let two = TomlView { ended: true, ..one };
            reveal_with_fuel(read, 2);
            assert(read(one, line, i, c, c + 1) == two);
            lemma_read_on(one, line, i, c, c + 1, n);
            lemma_read_ended(two, line, i, c + 1, n);
        }
    }
}

pub proof fn lemma_keeps_up(rows: Seq<TomlRow>, n: int)
    requires
        is_document(rows),
        0 <= n <= rows.len(),
    ensures
        keeps_up(rows, n),
    decreases n,
{
    if n <= 0 {
        assert(address_of(toml_lines(row_lines(rows), n).header) == under(table(rows, n)));
    } else {
        lemma_keeps_up(rows, n - 1);
        let i = n - 1;
        let lines = row_lines(rows);
        let st = toml_lines(lines, i);
        let now = toml_lines(lines, n);
        assert(lines[i] == row_text(rows[i]));
        assert(is_row(rows[i]));
        lemma_read_row(st, rows, i);
        let list = text_rows(rows, n);
        assert forall|m: int| 0 <= m < list.len() implies is_value_of(
            #[trigger] now.spots[m],
            rows,
            list[m],
        ) by {
            if m < text_rows(rows, i).len() {
                assert(is_value_of(st.spots[m], rows, text_rows(rows, i)[m]));
            }
        }
    }
}

/// In a document with one entry per line the outline holds the strings of the
/// entries, each at its own place, in their order, and nothing else.
pub proof fn law_toml_entries(rows: Seq<TomlRow>)
    requires
        is_document(rows),
    ensures
        ({
            let outline = toml_outline(row_lines(rows));
            let list = text_rows(rows, rows.len() as int);
            &&& outline.len() == list.len()
            &&& forall|m: int|
                0 <= m < outline.len() ==> is_value_of(#[trigger] outline[m], rows, list[m])
        }),
{
    lemma_keeps_up(rows, rows.len() as int);
}

/// Every entry that has a string is in the outline.
pub proof fn law_toml_entry_found(rows: Seq<TomlRow>, i: int) -> (spot: SpotView)
    requires
        is_document(rows),
        0 <= i < rows.len(),
        has_text(rows[i]),
    ensures
        toml_outline(row_lines(rows)).contains(spot),
        is_value_of(spot, rows, i),
{
    let f = text_row(rows);
    law_toml_entries(rows);
    lemma_gathered(rows.len() as int, f, i);
    let outline = toml_outline(row_lines(rows));
    let list = text_rows(rows, rows.len() as int);
    let m = choose|m: int| 0 <= m < list.len() && list[m] == i;
    assert(is_value_of(outline[m], rows, list[m]));
    outline[m]
}

/// Whatever the outline holds is the string of some entry.
pub proof fn law_toml_nothing_else(rows: Seq<TomlRow>, spot: SpotView) -> (i: int)
    requires
        is_document(rows),
        toml_outline(row_lines(rows)).contains(spot),
    ensures
        0 <= i < rows.len(),
        is_value_of(spot, rows, i),
{
    law_toml_entries(rows);
    let outline = toml_outline(row_lines(rows));
    let list = text_rows(rows, rows.len() as int);
    let m = choose|m: int| 0 <= m < outline.len() && outline[m] == spot;
    lemma_gather(rows.len() as int, text_row(rows), m);
    assert(is_value_of(outline[m], rows, list[m]));
    list[m]
}

} // verus!
