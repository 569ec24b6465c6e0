//! TOML lists with one item per line: their strings are in the outline, each
//! under its number.
use vstd::prelude::*;
use super::{address_of, is_simple, under, PlaceView, SpotView, StepView};
use super::toml::{
    cut, next_item, to_next, toml_line, toml_line_start, toml_lines, toml_outline, toml_value,
    Frame, TomlView,
};
use super::toml_rows::{
    is_calm, is_document, is_settled, lemma_keeps_up, lemma_read_blank, lemma_read_ended,
    lemma_read_key, lemma_read_line, lemma_read_on, lemma_read_string, read, row_lines, table,
    EntryKey, TomlRow,
};
use crate::locate::quoted;
use crate::text::chars::{is_blank, is_white_space};

verus! {

/// A line with an item of a list: the string, a comma behind it, white space
/// around both, and a comment.
pub struct TomlItem {
    pub lead: Seq<char>,
    pub value: Seq<char>,
    pub comma: bool,
    pub trail: Seq<char>,
    pub comment: Seq<char>,
}

/// The comma behind an item.
pub open spec fn comma_text(comma: bool) -> Seq<char> {
    if comma {
        seq![',']
    } else {
        seq![]
    }
}

/// An item as it is written.
pub open spec fn item_text(item: TomlItem) -> Seq<char> {
    item.lead + quoted(item.value) + comma_text(item.comma) + item.trail + item.comment
}

/// White space and a comment at the end of a line.
pub open spec fn is_end(trail: Seq<char>, comment: Seq<char>) -> bool {
    is_blank(trail) && (comment.len() > 0 ==> comment[0] == '#')
}

/// The parts of an item are what they stand for.
pub open spec fn is_list_item(item: TomlItem) -> bool {
    is_blank(item.lead) && is_simple(item.value) && is_end(item.trail, item.comment)
}

/// A list: its key, what stands around that, and its items.
pub struct TomlList {
    pub lead: Seq<char>,
    pub own: EntryKey,
    pub trail: Seq<char>,
    pub comment: Seq<char>,
    pub items: Seq<TomlItem>,
}

/// The line on which a list begins.
pub open spec fn opening_text(list: TomlList) -> Seq<char> {
    list.lead + list.own.text() + seq!['['] + list.trail + list.comment
}

/// The parts of a list are what they stand for, and a comma stands behind every
/// item but the last.
pub open spec fn is_list(list: TomlList) -> bool {
    &&& is_blank(list.lead)
    &&& list.own.valid()
    &&& is_end(list.trail, list.comment)
    &&& list.items.len() < usize::MAX
    &&& forall|j: int| 0 <= j < list.items.len() ==> is_list_item(#[trigger] list.items[j])
    &&& forall|j: int| 0 <= j < list.items.len() - 1 ==> (#[trigger] list.items[j]).comma
}

/// A document begins with some entries, and a list follows them.
pub open spec fn holds_list(lines: Seq<Seq<char>>, rows: Seq<TomlRow>, list: TomlList) -> bool {
    &&& is_document(rows)
    &&& table(rows, rows.len() as int).len() + 2 <= usize::MAX
    &&& is_list(list)
    &&& lines.len() > rows.len() + list.items.len()
    &&& lines.take(rows.len() as int) == row_lines(rows)
    &&& lines[rows.len() as int] == opening_text(list)
    &&& forall|j: int|
        0 <= j < list.items.len() ==> lines[rows.len() + 1 + j] == item_text(
            #[trigger] list.items[j],
        )
}

/// What is read once is kept to the end of the line.
proof fn lemma_read_keeps(st: TomlView, line: Seq<char>, i: int, a: int, b: int, spot: SpotView)
    requires
        st.spots.contains(spot),
    ensures
        read(st, line, i, a, b).spots.contains(spot),
    decreases b - a,
{
    if a < b {
        lemma_read_keeps(st, line, i, a, b - 1, spot);
        let before = read(st, line, i, a, b - 1);
        let now = read(st, line, i, a, b);
        let m = choose|m: int| 0 <= m < before.spots.len() && before.spots[m] == spot;
        assert(now.spots[m] == spot);
    }
}

/// What is read once is kept.
proof fn lemma_lines_keep(lines: Seq<Seq<char>>, a: int, b: int, spot: SpotView)
    requires
        0 <= a <= b,
        toml_lines(lines, a).spots.contains(spot),
    ensures
        toml_lines(lines, b).spots.contains(spot),
    decreases b,
{
    if a < b {
        lemma_lines_keep(lines, a, b - 1, spot);
        let st = toml_lines(lines, b - 1);
        let line = lines[b - 1];
        lemma_read_line(st, line, b - 1, line.len() as int);
        lemma_read_keeps(toml_line_start(st), line, b - 1, 0, line.len() as int, spot);
    }
}

/// What is read depends on the lines that are read.
proof fn lemma_same_lines(lines: Seq<Seq<char>>, m: int, n: int)
    requires
        n <= m <= lines.len(),
    ensures
        toml_lines(lines, n) == toml_lines(lines.take(m), n),
    decreases n,
{
    if n > 0 {
        lemma_same_lines(lines, m, n - 1);
        assert(lines.take(m)[n - 1] == lines[n - 1]);
    }
}

/// White space and a comment at the end of a line change nothing.
proof fn lemma_read_end(st: TomlView, line: Seq<char>, i: int, a: int, c: int)
    requires
        is_calm(st),
        0 <= a <= c <= line.len(),
        forall|k: int| a <= k < c ==> is_white_space(#[trigger] line[k]),
        c < line.len() ==> line[c] == '#',
    ensures
        ({
            let now = read(st, line, i, a, line.len() as int);
            now == st || now == (TomlView { ended: true, ..st })
        }),
{
    let n = line.len() as int;
    lemma_read_on(st, line, i, a, c, n);
    lemma_read_blank(st, line, i, a, c);
    if c < n {
        let two = TomlView { ended: true, ..st };
        reveal_with_fuel(read, 2);
        assert(read(st, line, i, c, c + 1) == two);
        lemma_read_on(st, line, i, c, c + 1, n);
        lemma_read_ended(two, line, i, c + 1, n);
    }
}

/// The reading is inside a list whose path is `path`, before item `k`.
spec fn in_list(st: TomlView, path: Seq<StepView>, k: int) -> bool {
    &&& st.quote is None
    &&& st.value
    &&& st.frames == seq![Frame { depth: (path.len() + 1) as usize, list: true }]
    &&& st.path == path.push(StepView::Item(k))
}

/// The key of a list and the bracket that opens it are read.
proof fn lemma_read_bracket(
    st: TomlView,
    line: Seq<char>,
    i: int,
    lead: Seq<char>,
    own: EntryKey,
) -> (path: Seq<StepView>)
    requires
        is_blank(lead),
        own.valid(),
        is_settled(st),
        lead.len() + own.text().len() < line.len(),
        line.take((lead.len() + own.text().len() + 1) as int) == lead + own.text() + seq!['['],
    ensures
        path.len() == st.header.len() + 1,
        address_of(path) == address_of(st.header).push(PlaceView::Key(own.key)),
        ({
            let b = lead.len() + own.text().len() + 1;
            let now = read(toml_line_start(st), line, i, 0, b as int);
            is_calm(now) && in_list(now, path, 0)
        }),
{
    let start = toml_line_start(st);
    let a = lead.len() as int;
    let b = a + own.text().len() as int;
    let front = lead + own.text() + seq!['['];
    assert forall|k: int| 0 <= k <= b implies #[trigger] line[k] == front[k] by {
        assert(line.take(b + 1)[k] == line[k]);
    }
    assert forall|k: int| 0 <= k < a implies is_white_space(#[trigger] line[k]) by {
        assert(line[k] == lead[k]);
    }
    lemma_read_on(start, line, i, 0, a, b + 1);
    lemma_read_blank(start, line, i, 0, a);
    assert(line.subrange(a, b) == own.text());
    lemma_read_on(start, line, i, a, b, b + 1);
    lemma_read_key(start, line, i, a, own);
    let one = read(start, line, i, a, b);
    let path = one.path;
    assert(line[b] == '[');
    reveal_with_fuel(read, 2);
    let two = read(one, line, i, b, b + 1);
    assert(two == toml_value(one, '['));
    assert(two.frames == seq![Frame { depth: (path.len() + 1) as usize, list: true }]);
    assert(address_of(path) == address_of(st.header).push(PlaceView::Key(own.key)));
    path
}

/// The line on which a list begins is read.
proof fn lemma_read_opening(st: TomlView, list: TomlList, i: int) -> (path: Seq<StepView>)
    requires
        is_list(list),
        is_settled(st),
    ensures
        path.len() == st.header.len() + 1,
        address_of(path) == address_of(st.header).push(PlaceView::Key(list.own.key)),
        in_list(toml_line(st, opening_text(list), i, opening_text(list).len() as int), path, 0),
{
    let line = opening_text(list);
    let n = line.len() as int;
    let start = toml_line_start(st);
    let b = (list.lead.len() + list.own.text().len() + 1) as int;
    let c = b + list.trail.len();
    lemma_read_line(st, line, i, n);
    assert(line.take(b) == list.lead + list.own.text() + seq!['[']);
    let path = lemma_read_bracket(st, line, i, list.lead, list.own);
    lemma_read_on(start, line, i, 0, b, n);
    assert forall|k: int| b <= k < c implies is_white_space(#[trigger] line[k]) by {
        assert(line[k] == list.trail[k - b]);
    }
    if c < n {
        assert(line[c] == list.comment[0]);
    }
    lemma_read_end(read(start, line, i, 0, b), line, i, b, c);
    path
}

/// A comma leads to the next item.
proof fn lemma_read_comma(
    st: TomlView,
    line: Seq<char>,
    i: int,
    b: int,
    path: Seq<StepView>,
    k: int,
)
    requires
        is_calm(st),
        in_list(st, path, k),
        0 <= k < usize::MAX,
        path.len() + 1 <= usize::MAX,
        line[b] == ',',
    ensures
        is_calm(read(st, line, i, b, b + 1)),
        in_list(read(st, line, i, b, b + 1), path, k + 1),
        read(st, line, i, b, b + 1).spots == st.spots,
{
    reveal_with_fuel(read, 2);
    assert(read(st, line, i, b, b + 1) == next_item(st));
    assert(cut(st.path, path.len() as int + 1) == st.path);
    assert(st.path.drop_last() == path);
    assert(to_next(st.path) == path.push(StepView::Item(k + 1)));
}

/// A line with an item is read.
proof fn lemma_read_item(st: TomlView, item: TomlItem, i: int, path: Seq<StepView>, k: int)
    requires
        is_list_item(item),
        in_list(st, path, k),
        0 <= k < usize::MAX,
        path.len() + 1 <= usize::MAX,
    ensures
        ({
            let now = toml_line(st, item_text(item), i, item_text(item).len() as int);
            &&& item.comma ==> in_list(now, path, k + 1)
            &&& now.spots == st.spots.push(
                SpotView {
                    path: path.push(StepView::Item(k)),
                    line: i,
                    at: item.lead.len() as int + 1,
                    text: item.value,
                },
            )
        }),
{
    let line = item_text(item);
    let n = line.len() as int;
    let start = toml_line_start(st);
    let a = item.lead.len() as int;
    let b = a + item.value.len() + 2;
    let d = b + comma_text(item.comma).len();
    let c = d + item.trail.len();
    lemma_read_line(st, line, i, n);
    assert forall|j: int| 0 <= j < a implies is_white_space(#[trigger] line[j]) by {
        assert(line[j] == item.lead[j]);
    }
    lemma_read_on(start, line, i, 0, a, n);
    lemma_read_blank(start, line, i, 0, a);
    assert(line.subrange(a, b) == quoted(item.value));
    if item.comma {
        assert(line[b] == ',');
    } else if b < n {
        if item.trail.len() > 0 {
            assert(line[b] == item.trail[0]);
        } else {
            assert(line[b] == item.comment[0]);
        }
    }
    lemma_read_on(start, line, i, a, b, n);
    lemma_read_string(start, line, i, a, item.value);
    let one = read(start, line, i, a, b);
    lemma_read_on(one, line, i, b, d, n);
    let two = read(one, line, i, b, d);
    if item.comma {
        lemma_read_comma(one, line, i, b, path, k);
    }
    assert forall|j: int| d <= j < c implies is_white_space(#[trigger] line[j]) by {
        assert(line[j] == item.trail[j - d]);
    }
    if c < n {
        assert(line[c] == item.comment[0]);
    }
    lemma_read_end(two, line, i, d, c);
}

/// The items before item `k` are read.
proof fn lemma_read_items(
    lines: Seq<Seq<char>>,
    rows: Seq<TomlRow>,
    list: TomlList,
    k: int,
) -> (path: Seq<StepView>)
    requires
        holds_list(lines, rows, list),
        0 <= k < list.items.len(),
    ensures
        path.len() + 1 <= usize::MAX,
        address_of(path) == under(table(rows, rows.len() as int).push(list.own.key)),
        in_list(toml_lines(lines, rows.len() + 1 + k), path, k),
    decreases k,
{
    let n = rows.len() as int;
    if k == 0 {
        lemma_keeps_up(rows, n);
        lemma_same_lines(lines, n, n);
        let st = toml_lines(lines, n);
        let path = lemma_read_opening(st, list, n);
        let keys = table(rows, n);
        assert(under(keys.push(list.own.key)) == under(keys).push(PlaceView::Key(list.own.key)));
        assert(address_of(st.header).len() == st.header.len());
        path
    } else {
        let path = lemma_read_items(lines, rows, list, k - 1);
        let st = toml_lines(lines, n + k);
        assert(list.items[k - 1].comma);
        assert(is_list_item(list.items[k - 1]));
        assert(lines[n + 1 + (k - 1)] == item_text(list.items[k - 1]));
        lemma_read_item(st, list.items[k - 1], n + k, path, k - 1);
        path
    }
}

/// Every item of a list is in the outline, under the keys of the list and its
/// own number, where it stands on its line, whatever follows the list.
pub proof fn law_list_items_found(
    lines: Seq<Seq<char>>,
    rows: Seq<TomlRow>,
    list: TomlList,
    k: int,
) -> (spot: SpotView)
    requires
        holds_list(lines, rows, list),
        0 <= k < list.items.len(),
    ensures
        toml_outline(lines).contains(spot),
        spot.text == list.items[k].value,
        spot.line == rows.len() + 1 + k,
        spot.at == list.items[k].lead.len() + 1,
        address_of(spot.path) == under(table(rows, rows.len() as int).push(list.own.key)).push(
            PlaceView::Item(k),
        ),
{
    let n = rows.len() as int;
    let path = lemma_read_items(lines, rows, list, k);
    let st = toml_lines(lines, n + 1 + k);
    let item = list.items[k];
    assert(is_list_item(item));
    assert(lines[n + 1 + k] == item_text(item));
    lemma_read_item(st, item, n + 1 + k, path, k);
    let now = toml_lines(lines, n + 2 + k);
    let spot = now.spots.last();
    assert(now.spots[st.spots.len() as int] == spot);
    lemma_lines_keep(lines, n + 2 + k, lines.len() as int, spot);
    assert(address_of(spot.path) == address_of(path).push(PlaceView::Item(k)));
    spot
}

/// An item of a list that is written on one line, with the white space around it.
pub struct InlineItem {
    pub gap: Seq<char>,
    pub value: Seq<char>,
    pub behind: Seq<char>,
}

/// The first `k` items, with a comma behind each.
pub open spec fn front_text(items: Seq<InlineItem>, k: int) -> Seq<char>
    decreases k,
{
    if k <= 0 {
        seq![]
    } else {
        front_text(items, k - 1) + items[k - 1].gap + quoted(items[k - 1].value) + items[k
            - 1].behind + seq![',']
    }
}

/// The parts of an item are what they stand for.
pub open spec fn is_inline_item(item: InlineItem) -> bool {
    is_blank(item.gap) && is_simple(item.value) && is_blank(item.behind)
}

/// A list on one line: its key, some of its items, the item that follows them, and
/// the rest of the line.
pub struct InlineList {
    pub lead: Seq<char>,
    pub own: EntryKey,
    pub before: Seq<InlineItem>,
    pub gap: Seq<char>,
    pub value: Seq<char>,
    pub rest: Seq<char>,
}

/// What stands before the item.
pub open spec fn inline_head(list: InlineList) -> Seq<char> {
    list.lead + list.own.text() + seq!['['] + front_text(list.before, list.before.len() as int)
        + list.gap
}

/// The line as it is written.
pub open spec fn inline_text(list: InlineList) -> Seq<char> {
    inline_head(list) + quoted(list.value) + list.rest
}

/// The parts of the line are what they stand for.
pub open spec fn is_inline_list(list: InlineList) -> bool {
    &&& is_blank(list.lead)
    &&& list.own.valid()
    &&& list.before.len() < usize::MAX
    &&& forall|j: int| 0 <= j < list.before.len() ==> is_inline_item(#[trigger] list.before[j])
    &&& is_blank(list.gap)
    &&& is_simple(list.value)
    &&& list.rest.len() > 0 ==> list.rest[0] != '"'
}

/// The items before the one that is looked for are read.
proof fn lemma_read_front(
    st: TomlView,
    line: Seq<char>,
    i: int,
    a: int,
    items: Seq<InlineItem>,
    k: int,
    path: Seq<StepView>,
)
    requires
        is_calm(st),
        in_list(st, path, 0),
        path.len() + 1 <= usize::MAX,
        0 <= k <= items.len() < usize::MAX,
        forall|j: int| 0 <= j < items.len() ==> is_inline_item(#[trigger] items[j]),
        0 <= a,
        a + front_text(items, k).len() <= line.len(),
        line.subrange(a, a + front_text(items, k).len()) == front_text(items, k),
    ensures
        is_calm(read(st, line, i, a, a + front_text(items, k).len())),
        in_list(read(st, line, i, a, a + front_text(items, k).len()), path, k),
    decreases k,
{
    let text = front_text(items, k);
    let n = a + text.len();
    if k > 0 {
        let less = front_text(items, k - 1);
        let item = items[k - 1];
        let b = a + less.len();
        let c = b + item.gap.len();
        let d = c + item.value.len() + 2;
        let e = d + item.behind.len();
        assert(is_inline_item(item));
        assert forall|j: int| a <= j < n implies #[trigger] line[j] == text[j - a] by {
            assert(line.subrange(a, n)[j - a] == line[j]);
        }
        assert(line.subrange(a, b) == less);
        lemma_read_front(st, line, i, a, items, k - 1, path);
        let one = read(st, line, i, a, b);
        assert forall|j: int| b <= j < c implies is_white_space(#[trigger] line[j]) by {
            assert(line[j] == item.gap[j - b]);
        }
        lemma_read_on(st, line, i, a, b, c);
        lemma_read_blank(one, line, i, b, c);
        assert(line.subrange(c, d) == quoted(item.value));
        assert(line[e] == ',');
        if d < e {
            assert(line[d] == item.behind[0]);
        }
        lemma_read_on(st, line, i, a, c, d);
        lemma_read_string(one, line, i, c, item.value);
        let two = read(one, line, i, c, d);
        assert forall|j: int| d <= j < e implies is_white_space(#[trigger] line[j]) by {
            assert(line[j] == item.behind[j - d]);
        }
        lemma_read_on(st, line, i, a, d, e);
        lemma_read_blank(two, line, i, d, e);
        lemma_read_on(st, line, i, a, e, n);
        lemma_read_comma(two, line, i, e, path, k - 1);
    }
}

/// Every item of a list on one line is in the outline, under the keys of the list
/// and its own number, where it stands on that line, whatever follows it.
pub proof fn law_inline_items_found(
    lines: Seq<Seq<char>>,
    rows: Seq<TomlRow>,
    list: InlineList,
) -> (spot: SpotView)
    requires
        is_document(rows),
        table(rows, rows.len() as int).len() + 2 <= usize::MAX,
        is_inline_list(list),
        lines.len() > rows.len(),
        lines.take(rows.len() as int) == row_lines(rows),
        lines[rows.len() as int] == inline_text(list),
    ensures
        toml_outline(lines).contains(spot),
        spot.text == list.value,
        spot.line == rows.len(),
        spot.at == inline_head(list).len() + 1,
        address_of(spot.path) == under(table(rows, rows.len() as int).push(list.own.key)).push(
            PlaceView::Item(list.before.len() as int),
        ),
{
    let i = rows.len() as int;
    let k = list.before.len() as int;
    let line = inline_text(list);
    let n = line.len() as int;
    let front = front_text(list.before, k);
    lemma_keeps_up(rows, i);
    lemma_same_lines(lines, i, i);
    let st = toml_lines(lines, i);
    let start = toml_line_start(st);
    let b = (list.lead.len() + list.own.text().len() + 1) as int;
    let c = b + front.len();
    let d = c + list.gap.len();
    let e = d + list.value.len() + 2;
    lemma_read_line(st, line, i, n);
    assert(line.take(b) == list.lead + list.own.text() + seq!['[']);
    let path = lemma_read_bracket(st, line, i, list.lead, list.own);
    let keys = table(rows, i);
    assert(under(keys.push(list.own.key)) == under(keys).push(PlaceView::Key(list.own.key)));
    assert(address_of(st.header).len() == st.header.len());
    let one = read(start, line, i, 0, b);
    assert(line.subrange(b, c) == front);
    lemma_read_front(one, line, i, b, list.before, k, path);
    lemma_read_on(start, line, i, 0, b, c);
    let two = read(one, line, i, b, c);
    assert forall|j: int| c <= j < d implies is_white_space(#[trigger] line[j]) by {
        assert(line[j] == list.gap[j - c]);
    }
    lemma_read_on(start, line, i, 0, c, d);
    lemma_read_blank(two, line, i, c, d);
    assert(line.subrange(d, e) == quoted(list.value));
    if e < n {
        assert(line[e] == list.rest[0]);
    }
    lemma_read_on(start, line, i, 0, d, e);
    lemma_read_string(two, line, i, d, list.value);
    let three = read(two, line, i, d, e);
    let spot = three.spots.last();
    assert(three.spots[two.spots.len() as int] == spot);
    lemma_read_on(start, line, i, 0, e, n);
    lemma_read_keeps(three, line, i, e, n, spot);
    lemma_lines_keep(lines, i + 1, lines.len() as int, spot);
    assert(address_of(spot.path) == address_of(path).push(PlaceView::Item(k)));
    spot
}

} // verus!
