//! JSON documents with one entry per line: their outline holds the strings of
//! their entries, and nothing else.
use vstd::prelude::*;
use super::{address_of, is_simple, place_of, under, KeyView, PlaceView, SpotView, StepView};
use super::json::{
    json_line, json_line_start, json_lines, json_outline, json_step, json_string, with_last,
    without_last, JsonView,
};
use crate::listing::{gather, lemma_gather, lemma_gathered};
use crate::locate::quoted;
use crate::text::chars::is_blank;
use crate::text::search::{is_char, lemma_find_where_none};

verus! {

/// A character that is no sign of JSON.
pub open spec fn is_quiet(c: char) -> bool {
    c != '"' && c != ':' && c != ',' && c != '{' && c != '[' && c != '}' && c != ']'
}

/// A value that is neither a string, a list nor a table.
pub open spec fn is_word(s: Seq<char>) -> bool {
    forall|i: int| 0 <= i < s.len() ==> is_quiet(#[trigger] s[i])
}

/// What a line says.
pub enum JsonBody {
    /// The document's table opens.
    Root,
    /// A key whose value is a table, which opens.
    Table { key: Seq<char>, before: Seq<char>, behind: Seq<char> },
    /// A key whose value is a string.
    Text { key: Seq<char>, before: Seq<char>, behind: Seq<char>, value: Seq<char> },
    /// A key whose value is neither a string, a list nor a table.
    Word { key: Seq<char>, before: Seq<char>, behind: Seq<char>, value: Seq<char> },
    /// The innermost table closes.
    Close,
}

/// A line of a document: what it says, and the white space around that.
pub struct JsonRow {
    pub lead: Seq<char>,
    pub body: JsonBody,
    pub comma: bool,
    pub trail: Seq<char>,
}

/// A key and its colon, with white space on either side of the colon.
pub open spec fn key_text(key: Seq<char>, before: Seq<char>, behind: Seq<char>) -> Seq<char> {
    quoted(key) + before + seq![':'] + behind
}

/// What a line says, as it is written.
pub open spec fn body_text(body: JsonBody) -> Seq<char> {
    match body {
        JsonBody::Root => seq!['{'],
        JsonBody::Table { key, before, behind } => key_text(key, before, behind) + seq!['{'],
        JsonBody::Text { key, before, behind, value } => key_text(key, before, behind) + quoted(
            value,
        ),
        JsonBody::Word { key, before, behind, value } => key_text(key, before, behind) + value,
        JsonBody::Close => seq!['}'],
    }
}

/// A line as it is written.
pub open spec fn row_text(row: JsonRow) -> Seq<char> {
    let end = if row.comma {
        seq![',']
    } else {
        seq![]
    };
    row.lead + body_text(row.body) + end + row.trail
}

/// The lines of a document.
pub open spec fn row_lines(rows: Seq<JsonRow>) -> Seq<Seq<char>> {
    rows.map_values(|row: JsonRow| row_text(row))
}

/// A line that opens a table.
pub open spec fn opens(row: JsonRow) -> bool {
    row.body is Root || row.body is Table
}

/// A line that begins with a key.
pub open spec fn has_key(row: JsonRow) -> bool {
    row.body is Table || row.body is Text || row.body is Word
}

/// The parts of a line are what they stand for.
pub open spec fn is_row(row: JsonRow) -> bool {
    &&& is_blank(row.lead)
    &&& is_blank(row.trail)
    &&& opens(row) ==> !row.comma
    &&& match row.body {
        JsonBody::Table { key, before, behind } => is_simple(key) && is_blank(before) && is_blank(
            behind,
        ),
        JsonBody::Text { key, before, behind, value } => is_simple(key) && is_blank(before)
            && is_blank(behind) && is_simple(value),
        JsonBody::Word { key, before, behind, value } => is_simple(key) && is_blank(before)
            && is_blank(behind) && is_word(value),
        _ => true,
    }
}

/// The keys of the tables that are open behind the first `n` lines, the
/// outermost first.
pub open spec fn tables(rows: Seq<JsonRow>, n: int) -> Seq<Seq<char>>
    decreases n,
{
    if n <= 0 {
        seq![]
    } else {
        let outer = tables(rows, n - 1);
        match rows[n - 1].body {
            JsonBody::Table { key, before, behind } => outer.push(key),
            JsonBody::Close => if outer.len() > 0 {
                outer.drop_last()
            } else {
                outer
            },
            _ => outer,
        }
    }
}

/// The line `i` closes the document's own table.
pub open spec fn closes_root(rows: Seq<JsonRow>, i: int) -> bool {
    rows[i].body is Close && tables(rows, i).len() == 0
}

/// The lines make up a document: its table opens first, a comma separates the
/// entries of a table, and nothing follows the end.
pub open spec fn is_document(rows: Seq<JsonRow>) -> bool {
    &&& rows.len() > 0
    &&& rows[0].body is Root
    &&& forall|i: int| 0 <= i < rows.len() ==> is_row(#[trigger] rows[i])
    &&& forall|i: int|
        0 < i < rows.len() ==> {
            &&& !((#[trigger] rows[i]).body is Root)
            &&& has_key(rows[i]) ==> opens(rows[i - 1]) || rows[i - 1].comma
            &&& closes_root(rows, i) ==> i == rows.len() - 1
        }
}

/// The numbers of the lines whose value is a string.
pub open spec fn text_row(rows: Seq<JsonRow>) -> spec_fn(int) -> Option<int> {
    |i: int|
        if rows[i].body is Text {
            Some(i)
        } else {
            None
        }
}

/// The lines whose value is a string.
pub open spec fn text_rows(rows: Seq<JsonRow>, n: int) -> Seq<int> {
    gather(n, text_row(rows))
}

/// The index at which the value of a line begins.
pub open spec fn value_start(
    row: JsonRow,
    key: Seq<char>,
    before: Seq<char>,
    behind: Seq<char>,
) -> int {
    row.lead.len() + key_text(key, before, behind).len() as int
}

/// A string is the value of line `i`, under the keys of the tables around it and
/// its own, which stands on the same line.
pub open spec fn is_value_of(spot: SpotView, rows: Seq<JsonRow>, i: int) -> bool {
    match rows[i].body {
        JsonBody::Text { key, before, behind, value } => {
            &&& spot.line == i
            &&& spot.at == value_start(rows[i], key, before, behind) + 1
            &&& spot.text == value
            &&& address_of(spot.path) == under(tables(rows, i).push(key))
            &&& spot.path.len() > 0
            &&& spot.path.last() matches StepView::Key(own) && own.line == i
        },
        _ => false,
    }
}

/// The characters of line `i` from index `a` to index `b` are read.
spec fn read(st: JsonView, line: Seq<char>, i: int, a: int, b: int) -> JsonView
    decreases b - a,
{
    if b <= a {
        st
    } else {
        json_step(read(st, line, i, a, b - 1), line, i, b - 1)
    }
}

proof fn lemma_read_line(st: JsonView, line: Seq<char>, i: int, n: int)
    requires
        0 <= n,
    ensures
        json_line(st, line, i, n) == read(json_line_start(st), line, i, 0, n),
    decreases n,
{
    if n > 0 {
        lemma_read_line(st, line, i, n - 1);
    }
}

proof fn lemma_read_on(st: JsonView, line: Seq<char>, i: int, a: int, b: int, c: int)
    requires
        a <= b <= c,
    ensures
        read(st, line, i, a, c) == read(read(st, line, i, a, b), line, i, b, c),
    decreases c - b,
{
    if b < c {
        lemma_read_on(st, line, i, a, b, c - 1);
    }
}

/// What is no sign changes nothing.
proof fn lemma_read_quiet(st: JsonView, line: Seq<char>, i: int, a: int, b: int)
    requires
        !st.inside,
        forall|k: int| a <= k < b ==> is_quiet(#[trigger] line[k]),
    ensures
        read(st, line, i, a, b) == st,
    decreases b - a,
{
    if a < b {
        lemma_read_quiet(st, line, i, a, b - 1);
        assert(is_quiet(line[b - 1]));
    }
}

/// Inside a string nothing but its end counts.
proof fn lemma_read_inside(st: JsonView, line: Seq<char>, i: int, a: int, b: int)
    requires
        st.inside,
        !st.escaped,
        forall|k: int| a <= k < b ==> #[trigger] line[k] != '"' && line[k] != '\\',
    ensures
        read(st, line, i, a, b) == st,
    decreases b - a,
{
    if a < b {
        lemma_read_inside(st, line, i, a, b - 1);
        assert(line[b - 1] != '"');
    }
}

/// A string is read as a whole.
proof fn lemma_read_string(st: JsonView, line: Seq<char>, i: int, a: int, text: Seq<char>)
    requires
        !st.inside,
        !st.escaped,
        0 <= a,
        a + text.len() + 2 <= line.len(),
        line.subrange(a, a + text.len() + 2) == quoted(text),
        is_simple(text),
    ensures
        read(st, line, i, a, a + text.len() + 2) == json_string(
            JsonView { inside: true, start: a + 1, ..st },
            i,
            text,
        ),
{
    let b = a + text.len() + 2;
    let q = quoted(text);
    let inner = JsonView { inside: true, start: a + 1, ..st };
    assert forall|k: int| a <= k < b implies #[trigger] line[k] == q[k - a] by {
        assert(line.subrange(a, b)[k - a] == line[k]);
    }
    assert(line[a] == '"' && line[b - 1] == '"');
    assert forall|k: int| a + 1 <= k < b - 1 implies #[trigger] line[k] != '"' && line[k]
        != '\\' by {
        assert(line[k] == text[k - a - 1]);
    }
    lemma_read_on(st, line, i, a, a + 1, b - 1);
    reveal_with_fuel(read, 2);
    assert(read(st, line, i, a, a + 1) == inner);
    lemma_read_inside(inner, line, i, a + 1, b - 1);
    assert(line.subrange(a + 1, b - 1) == text);
}

/// A key and its colon are read.
proof fn lemma_read_key(
    st: JsonView,
    line: Seq<char>,
    i: int,
    a: int,
    key: Seq<char>,
    before: Seq<char>,
    behind: Seq<char>,
)
    requires
        !st.inside,
        !st.escaped,
        !st.value,
        0 <= a,
        a + key_text(key, before, behind).len() <= line.len(),
        line.subrange(a, a + key_text(key, before, behind).len()) == key_text(key, before, behind),
        is_simple(key),
        is_blank(before),
        is_blank(behind),
    ensures
        read(st, line, i, a, a + key_text(key, before, behind).len()) == (JsonView {
            path: with_last(st.path, StepView::Key(KeyView { text: key, line: i, at: a + 1 })),
            value: true,
            start: a + 1,
            ..st
        }),
{
    let text = key_text(key, before, behind);
    let b = a + key.len() + 2;
    let c = b + before.len();
    let d = c + 1 + behind.len();
    assert(text.len() == d - a);
    assert forall|k: int| a <= k < d implies #[trigger] line[k] == text[k - a] by {
        assert(line.subrange(a, d)[k - a] == line[k]);
    }
    assert(line.subrange(a, b) == quoted(key));
    lemma_read_string(st, line, i, a, key);
    let own = KeyView { text: key, line: i, at: a + 1 };
    lemma_find_where_none(key, is_char('\\'));
    let one = JsonView { path: with_last(st.path, StepView::Key(own)), start: a + 1, ..st };
    assert(read(st, line, i, a, b) == one);
    assert forall|k: int| b <= k < c implies is_quiet(#[trigger] line[k]) by {
        assert(line[k] == before[k - b]);
    }
    lemma_read_on(st, line, i, a, b, c);
    lemma_read_quiet(one, line, i, b, c);
    let two = JsonView { value: true, ..one };
    assert(line[c] == ':');
    assert(read(st, line, i, a, c + 1) == two);
    assert forall|k: int| c + 1 <= k < d implies is_quiet(#[trigger] line[k]) by {
        assert(line[k] == behind[k - c - 1]);
    }
    lemma_read_on(st, line, i, a, c + 1, d);
    lemma_read_quiet(two, line, i, c + 1, d);
}

/// The path behind what a line says.
spec fn body_path(path: Seq<StepView>, row: JsonRow, i: int) -> Seq<StepView> {
    match row.body {
        JsonBody::Root => path.push(StepView::Open),
        JsonBody::Table { key, before, behind } => with_last(
            path,
            StepView::Key(KeyView { text: key, line: i, at: row.lead.len() as int + 1 }),
        ).push(StepView::Open),
        JsonBody::Text { key, before, behind, value } => with_last(
            path,
            StepView::Key(KeyView { text: key, line: i, at: row.lead.len() as int + 1 }),
        ),
        JsonBody::Word { key, before, behind, value } => with_last(
            path,
            StepView::Key(KeyView { text: key, line: i, at: row.lead.len() as int + 1 }),
        ),
        JsonBody::Close => without_last(path),
    }
}

/// The path behind a line.
spec fn row_path(path: Seq<StepView>, row: JsonRow, i: int) -> Seq<StepView> {
    if row.comma {
        with_last(body_path(path, row, i), StepView::Open)
    } else {
        body_path(path, row, i)
    }
}

/// The strings behind a line.
spec fn row_spots(st: JsonView, row: JsonRow, i: int) -> Seq<SpotView> {
    match row.body {
        JsonBody::Text { key, before, behind, value } => st.spots.push(
            SpotView {
                path: body_path(st.path, row, i),
                line: i,
                at: value_start(row, key, before, behind) + 1,
                text: value,
            },
        ),
        _ => st.spots,
    }
}

/// What a line says is read.
proof fn lemma_read_body(st: JsonView, row: JsonRow, i: int)
    requires
        is_row(row),
        !st.inside,
        !st.escaped,
        has_key(row) ==> !st.value,
    ensures
        ({
            let a = row.lead.len() as int;
            let b = a + body_text(row.body).len() as int;
            let now = read(st, row_text(row), i, a, b);
            &&& now.path == body_path(st.path, row, i)
            &&& now.spots == row_spots(st, row, i)
            &&& !now.inside
            &&& !now.escaped
            &&& opens(row) || row.body is Close ==> !now.value
        }),
{
    let line = row_text(row);
    let a = row.lead.len() as int;
    let text = body_text(row.body);
    let b = a + text.len() as int;
    assert(line.subrange(a, b) == text);
    assert forall|k: int| a <= k < b implies #[trigger] line[k] == text[k - a] by {
        assert(line.subrange(a, b)[k - a] == line[k]);
    }
    match row.body {
        JsonBody::Root => {
            reveal_with_fuel(read, 2);
            assert(line[a] == '{');
        },
        JsonBody::Close => {
            reveal_with_fuel(read, 2);
            assert(line[a] == '}');
        },
        JsonBody::Table { key, before, behind } => {
            let head = key_text(key, before, behind);
            assert(line.subrange(a, a + head.len()) == head);
            lemma_read_key(st, line, i, a, key, before, behind);
            assert(line[b - 1] == '{');
        },
        JsonBody::Text { key, before, behind, value } => {
            let head = key_text(key, before, behind);
            let c = a + head.len() as int;
            assert(line.subrange(a, c) == head);
            lemma_read_key(st, line, i, a, key, before, behind);
            let one = read(st, line, i, a, c);
            assert(line.subrange(c, b) == quoted(value));
            lemma_read_on(st, line, i, a, c, b);
            lemma_read_string(one, line, i, c, value);
        },
        JsonBody::Word { key, before, behind, value } => {
            let head = key_text(key, before, behind);
            let c = a + head.len() as int;
            assert(line.subrange(a, c) == head);
            lemma_read_key(st, line, i, a, key, before, behind);
            let one = read(st, line, i, a, c);
            assert forall|k: int| c <= k < b implies is_quiet(#[trigger] line[k]) by {
                assert(line[k] == value[k - c]);
            }
            lemma_read_on(st, line, i, a, c, b);
            lemma_read_quiet(one, line, i, c, b);
        },
    }
}

/// A line is read.
proof fn lemma_read_row(st: JsonView, row: JsonRow, i: int)
    requires
        is_row(row),
        has_key(row) ==> !st.value,
    ensures
        ({
            let now = json_line(st, row_text(row), i, row_text(row).len() as int);
            &&& now.path == row_path(st.path, row, i)
            &&& now.spots == row_spots(st, row, i)
            &&& opens(row) || row.body is Close || row.comma ==> !now.value
        }),
{
    let line = row_text(row);
    let start = json_line_start(st);
    let a = row.lead.len() as int;
    let b = a + body_text(row.body).len() as int;
    let c = if row.comma {
        b + 1
    } else {
        b
    };
    let n = line.len() as int;
    lemma_read_line(st, line, i, n);
    assert forall|k: int| 0 <= k < a implies is_quiet(#[trigger] line[k]) by {
        assert(line[k] == row.lead[k]);
    }
    lemma_read_on(start, line, i, 0, a, n);
    lemma_read_quiet(start, line, i, 0, a);
    lemma_read_body(start, row, i);
    let one = read(start, line, i, a, b);
    lemma_read_on(start, line, i, a, b, n);
    if row.comma {
        assert(line[b] == ',');
        reveal_with_fuel(read, 2);
    }
    let two = read(one, line, i, b, c);
    assert forall|k: int| c <= k < n implies is_quiet(#[trigger] line[k]) by {
        assert(line[k] == row.trail[k - c]);
    }
    lemma_read_on(one, line, i, b, c, n);
    lemma_read_quiet(two, line, i, c, n);
}

/// What holds of the reading behind the first `n` lines.
spec fn keeps_up(rows: Seq<JsonRow>, n: int) -> bool {
    let st = json_lines(row_lines(rows), n);
    let list = text_rows(rows, n);
    let outer = tables(rows, n);
    &&& st.spots.len() == list.len()
    &&& forall|m: int|
        0 <= m < list.len() ==> is_value_of(#[trigger] st.spots[m], rows, list[m])
    &&& n > 0 && !closes_root(rows, n - 1) ==> {
        &&& st.path.len() == outer.len() + 1
        &&& forall|j: int|
            0 <= j < outer.len() ==> place_of(#[trigger] st.path[j]) == PlaceView::Key(outer[j])
        &&& opens(rows[n - 1]) || rows[n - 1].comma ==> !st.value
    }
}

proof fn lemma_keeps_up(rows: Seq<JsonRow>, n: int)
    requires
        is_document(rows),
        0 <= n <= rows.len(),
    ensures
        keeps_up(rows, n),
    decreases n,
{
    if n > 0 {
        lemma_keeps_up(rows, n - 1);
        let i = n - 1;
        let row = rows[i];
        let lines = row_lines(rows);
        let st = json_lines(lines, i);
        let now = json_lines(lines, n);
        let outer = tables(rows, i);
        assert(lines[i] == row_text(row));
        assert(is_row(row));
        lemma_read_row(st, row, i);
        if i == 0 {
            assert(now.path == seq![StepView::Open]);
        } else {
            assert(!closes_root(rows, i - 1));
            let path = body_path(st.path, row, i);
            match row.body {
                JsonBody::Text { key, before, behind, value } => {
                    let spot = now.spots.last();
                    let want = under(outer.push(key));
                    assert(path.len() == outer.len() + 1);
                    assert forall|j: int| 0 <= j < path.len() implies #[trigger] place_of(path[j])
                        == want[j] by {
                        if j < outer.len() {
                            assert(path[j] == st.path[j]);
                        }
                    }
                    assert(address_of(path) == want);
                    assert(is_value_of(spot, rows, i));
                },
                _ => {},
            }
            assert forall|j: int|
                0 <= j < tables(rows, n).len() && !closes_root(rows, i) implies place_of(
                #[trigger] now.path[j],
            ) == PlaceView::Key(tables(rows, n)[j]) by {
                if j < outer.len() {
                    assert(place_of(st.path[j]) == PlaceView::Key(outer[j]));
                }
            }
        }
        let list = text_rows(rows, n);
        assert forall|m: int| 0 <= m < list.len() implies is_value_of(
            #[trigger] now.spots[m],
            rows,
            list[m],
        ) by {
            if m < text_rows(rows, i).len() {
                assert(is_value_of(st.spots[m], rows, text_rows(rows, i)[m]));
            }
        }
    }
}

/// In a document with one entry per line the outline holds the strings of the
/// entries, each at its own place, in their order, and nothing else.
pub proof fn law_json_entries(rows: Seq<JsonRow>)
    requires
        is_document(rows),
    ensures
        ({
            let outline = json_outline(row_lines(rows));
            let list = text_rows(rows, rows.len() as int);
            &&& outline.len() == list.len()
            &&& forall|m: int|
                0 <= m < outline.len() ==> is_value_of(#[trigger] outline[m], rows, list[m])
        }),
{
    lemma_keeps_up(rows, rows.len() as int);
}

/// Every entry whose value is a string is in the outline.
pub proof fn law_json_entry_found(rows: Seq<JsonRow>, i: int) -> (spot: SpotView)
    requires
        is_document(rows),
        0 <= i < rows.len(),
        rows[i].body is Text,
    ensures
        json_outline(row_lines(rows)).contains(spot),
        is_value_of(spot, rows, i),
{
    let f = text_row(rows);
    law_json_entries(rows);
    lemma_gathered(rows.len() as int, f, i);
    let outline = json_outline(row_lines(rows));
    let list = text_rows(rows, rows.len() as int);
    let m = choose|m: int| 0 <= m < list.len() && list[m] == i;
    assert(is_value_of(outline[m], rows, list[m]));
    outline[m]
}

/// Whatever the outline holds is the value of some entry.
pub proof fn law_json_nothing_else(rows: Seq<JsonRow>, spot: SpotView) -> (i: int)
    requires
        is_document(rows),
        json_outline(row_lines(rows)).contains(spot),
    ensures
        0 <= i < rows.len(),
        is_value_of(spot, rows, i),
{
    law_json_entries(rows);
    let outline = json_outline(row_lines(rows));
    let list = text_rows(rows, rows.len() as int);
    let m = choose|m: int| 0 <= m < outline.len() && outline[m] == spot;
    lemma_gather(rows.len() as int, text_row(rows), m);
    assert(is_value_of(outline[m], rows, list[m]));
    list[m]
}

} // verus!
