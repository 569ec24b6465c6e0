//! Outlines of TOML documents.
use vstd::prelude::*;
use vstd::slice::slice_subrange;
use super::{
    all_before, all_end_before, all_placed, copy_key, copy_path, copy_text, ends_before, in_order,
    is_placed, key_of, path_view, spots_view, stands_before, Key, KeyView, Outline, Spot, SpotView,
    Step, StepView,
};
use crate::text::chars::{is_white_space, white_space};
use crate::text::search::parts_view;

verus! {

/// A list or an inline table that has not been closed.
#[derive(Debug, Clone, Copy, PartialEq, Eq, Structural)]
pub struct Frame {
    /// How many steps lead to what it holds.
    pub depth: usize,
    pub list: bool,
}

/// How far a TOML document has been read.
pub struct TomlScan {
    /// The steps to the table that the last header opened.
    pub header: Vec<Step>,
    /// The steps that lead to where the reading is.
    pub path: Vec<Step>,
    /// The lists and inline tables around it, the outermost first.
    pub frames: Vec<Frame>,
    /// The key that is being read.
    pub part: Key,
    /// A value follows, not a key.
    pub value: bool,
    /// The reading is inside a header.
    pub naming: bool,
    /// The header is one of a list of tables.
    pub double: bool,
    /// The mark of the string that the reading is inside of.
    pub quote: Option<char>,
    /// The string stands between three marks.
    pub triple: bool,
    /// The string began on this line.
    pub here: bool,
    /// The next character is escaped.
    pub escaped: bool,
    /// The index on its line of the string's first character.
    pub start: usize,
    /// How many of the next characters belong to a mark already read.
    pub passed: usize,
    /// Nothing more is read on this line.
    pub ended: bool,
    /// The strings that have been read.
    pub spots: Vec<Spot>,
}

/// How far a TOML document has been read, as a mathematical value.
#[verifier::ext_equal]
pub struct TomlView {
    pub header: Seq<StepView>,
    pub path: Seq<StepView>,
    pub frames: Seq<Frame>,
    pub part: KeyView,
    pub value: bool,
    pub naming: bool,
    pub double: bool,
    pub quote: Option<char>,
    pub triple: bool,
    pub here: bool,
    pub escaped: bool,
    pub start: int,
    pub passed: int,
    pub ended: bool,
    pub spots: Seq<SpotView>,
}

impl View for TomlScan {
    type V = TomlView;

    open spec fn view(&self) -> TomlView {
        TomlView {
            header: path_view(self.header@),
            path: path_view(self.path@),
            frames: self.frames@,
            part: self.part@,
            value: self.value,
            naming: self.naming,
            double: self.double,
            quote: self.quote,
            triple: self.triple,
            here: self.here,
            escaped: self.escaped,
            start: self.start as int,
            passed: self.passed as int,
            ended: self.ended,
            spots: spots_view(self.spots@),
        }
    }
}

/// Nothing of a key has been read.
pub open spec fn no_key() -> KeyView {
    KeyView { text: seq![], line: 0, at: 0 }
}

/// Before anything is read.
pub open spec fn toml_start() -> TomlView {
    TomlView {
        header: seq![],
        path: seq![],
        frames: seq![],
        part: no_key(),
        value: false,
        naming: false,
        double: false,
        quote: None,
        triple: false,
        here: false,
        escaped: false,
        start: 0,
        passed: 0,
        ended: false,
        spots: seq![],
    }
}

/// The first steps of a path, `depth` of them at most.
pub open spec fn cut(path: Seq<StepView>, depth: int) -> Seq<StepView> {
    if 0 <= depth < path.len() {
        path.take(depth)
    } else {
        path
    }
}

/// The same character stands at index `k` of a line and at the two behind it.
pub open spec fn tripled(line: Seq<char>, k: int) -> bool {
    k + 2 < line.len() && line[k + 1] == line[k] && line[k + 2] == line[k]
}

/// The end of a string on line `i`: a value is noted, and anything else is a
/// key.
pub open spec fn toml_string(st: TomlView, i: int, text: Seq<char>) -> TomlView {
    if st.value {
        TomlView {
            quote: None,
            spots: st.spots.push(
                SpotView { path: st.path, line: i, at: st.start, text },
            ),
            ..st
        }
    } else {
        TomlView { quote: None, part: KeyView { text, line: i, at: st.start }, ..st }
    }
}

/// A character inside a string with the mark `q`.
pub open spec fn toml_inside(st: TomlView, q: char, line: Seq<char>, i: int, k: int) -> TomlView {
    let c = line[k];
    if st.escaped {
        TomlView { escaped: false, ..st }
    } else if c == '\\' && q == '"' {
        TomlView { escaped: true, ..st }
    } else if c != q {
        st
    } else if !st.triple {
        toml_string(st, i, line.subrange(st.start, k))
    } else if !tripled(line, k) {
        st
    } else {
        let rest = TomlView { triple: false, passed: 2, ..st };
        if st.here {
            toml_string(rest, i, line.subrange(st.start, k))
        } else {
            TomlView { quote: None, ..rest }
        }
    }
}

/// The step to the value of a key.
pub open spec fn step_of(part: KeyView) -> StepView {
    if part.text.len() == 0 {
        StepView::Open
    } else {
        StepView::Key(part)
    }
}

/// The key that has been read becomes part of the path.
pub open spec fn keyed(st: TomlView) -> TomlView {
    TomlView { path: st.path.push(step_of(st.part)), part: no_key(), ..st }
}

/// The character at index `k` of line `i` goes on with the key before it, or
/// begins one.
pub open spec fn spelled(st: TomlView, line: Seq<char>, i: int, k: int) -> TomlView {
    let part = st.part;
    let joined = part.text.len() > 0 && part.line == i && part.at + part.text.len() == k;
    if joined {
        TomlView { part: KeyView { text: part.text.push(line[k]), ..part }, ..st }
    } else {
        TomlView { part: KeyView { text: seq![line[k]], line: i, at: k }, ..st }
    }
}

/// A header ends. A list of tables adds a step without a key.
pub open spec fn header_end(st: TomlView) -> TomlView {
    let path = st.path.push(step_of(st.part));
    let full = if st.double {
        path.push(StepView::Open)
    } else {
        path
    };
    TomlView { header: full, path: full, part: no_key(), naming: false, ended: true, ..st }
}

/// A list or an inline table ends.
pub open spec fn closed(st: TomlView) -> TomlView {
    if st.frames.len() == 0 {
        st
    } else {
        TomlView {
            path: cut(st.path, st.frames.last().depth as int),
            frames: st.frames.drop_last(),
            value: true,
            part: no_key(),
            ..st
        }
    }
}

/// The number of the next item of a list.
pub open spec fn next_number(n: int) -> int {
    if n < usize::MAX {
        n + 1
    } else {
        n
    }
}

/// The path to the next item of a list.
pub open spec fn to_next(path: Seq<StepView>) -> Seq<StepView> {
    if path.len() == 0 {
        path
    } else {
        match path.last() {
            StepView::Item(n) => path.drop_last().push(StepView::Item(next_number(n))),
            _ => path,
        }
    }
}

/// The next item of a list, or the next key of an inline table.
pub open spec fn next_item(st: TomlView) -> TomlView {
    if st.frames.len() == 0 {
        st
    } else {
        let frame = st.frames.last();
        let path = cut(st.path, frame.depth as int);
        TomlView {
            path: if frame.list {
                to_next(path)
            } else {
                path
            },
            value: frame.list,
            part: no_key(),
            ..st
        }
    }
}

/// A character of a header.
pub open spec fn toml_header(st: TomlView, line: Seq<char>, i: int, k: int) -> TomlView {
    let c = line[k];
    if c == '[' {
        TomlView { double: true, ..st }
    } else if c == '.' {
        keyed(st)
    } else if c == ']' {
        header_end(st)
    } else if is_white_space(c) {
        st
    } else {
        spelled(st, line, i, k)
    }
}

/// A character where a value is due.
pub open spec fn toml_value(st: TomlView, c: char) -> TomlView {
    if c == '[' {
        TomlView {
            path: st.path.push(StepView::Item(0)),
            frames: st.frames.push(Frame { depth: (st.path.len() + 1) as usize, list: true }),
            ..st
        }
    } else if c == '{' {
        TomlView {
            frames: st.frames.push(Frame { depth: st.path.len() as usize, list: false }),
            value: false,
            part: no_key(),
            ..st
        }
    } else {
        st
    }
}

/// A character where a key is due.
pub open spec fn toml_key(st: TomlView, line: Seq<char>, i: int, k: int) -> TomlView {
    let c = line[k];
    if c == '[' && st.frames.len() == 0 {
        TomlView { naming: true, double: false, path: seq![], part: no_key(), ..st }
    } else if c == '.' {
        keyed(st)
    } else if c == '=' {
        TomlView { value: true, ..keyed(st) }
    } else if is_white_space(c) {
        st
    } else {
        spelled(st, line, i, k)
    }
}

/// The character at index `k` of line `i` is read.
pub open spec fn toml_step(st: TomlView, line: Seq<char>, i: int, k: int) -> TomlView {
    let c = line[k];
    if st.passed > 0 {
        TomlView { passed: st.passed - 1, ..st }
    } else if st.ended {
        st
    } else if let Some(q) = st.quote {
        toml_inside(st, q, line, i, k)
    } else if c == '"' || c == '\'' {
        if st.value && tripled(line, k) {
            TomlView { quote: Some(c), triple: true, here: true, passed: 2, start: k + 3, ..st }
        } else {
            TomlView { quote: Some(c), triple: false, here: true, start: k + 1, ..st }
        }
    } else if c == '#' {
        TomlView { ended: true, ..st }
    } else if st.naming {
        toml_header(st, line, i, k)
    } else if c == ',' {
        next_item(st)
    } else if c == '}' || c == ']' {
        closed(st)
    } else if st.value {
        toml_value(st, c)
    } else {
        toml_key(st, line, i, k)
    }
}

/// A new line begins. Only lists, inline tables and strings between three marks
/// go on from one line to the next.
pub open spec fn toml_line_start(st: TomlView) -> TomlView {
    let kept = if st.triple {
        st.quote
    } else {
        None
    };
    let fresh = TomlView {
        quote: kept,
        triple: kept is Some,
        here: false,
        escaped: false,
        passed: 0,
        ended: false,
        naming: false,
        ..st
    };
    if st.frames.len() == 0 && kept is None {
        TomlView { path: st.header, value: false, part: no_key(), ..fresh }
    } else {
        fresh
    }
}

/// The first `n` characters of line `i` are read.
pub open spec fn toml_line(st: TomlView, line: Seq<char>, i: int, n: int) -> TomlView
    decreases n,
{
    if n <= 0 {
        toml_line_start(st)
    } else {
        toml_step(toml_line(st, line, i, n - 1), line, i, n - 1)
    }
}

/// The first `n` lines are read.
pub open spec fn toml_lines(lines: Seq<Seq<char>>, n: int) -> TomlView
    decreases n,
{
    if n <= 0 {
        toml_start()
    } else {
        toml_line(
            toml_lines(lines, n - 1),
            lines[n - 1],
            n - 1,
            lines[n - 1].len() as int,
        )
    }
}

/// The strings that stand as values in a TOML document.
pub open spec fn toml_outline(lines: Seq<Seq<char>>) -> Seq<SpotView> {
    toml_lines(lines, lines.len() as int).spots
}

/// What has been read of line `i` ends at this index, or where the string began
/// that the reading is inside of.
spec fn passed(st: TomlView, n: int) -> int {
    if st.quote is Some && st.here {
        st.start - 1
    } else {
        n
    }
}

/// The keys that have been read end before index `at` of a line.
spec fn keys_before(lines: Seq<Seq<char>>, st: TomlView, line: int, at: int) -> bool {
    &&& all_before(lines, st.path, line, at)
    &&& all_before(lines, st.header, line, at)
    &&& st.part.text.len() > 0 ==> stands_before(lines, st.part, line, at)
}

proof fn lemma_keys_later(
    lines: Seq<Seq<char>>,
    st: TomlView,
    line: int,
    at: int,
    line2: int,
    at2: int,
)
    requires
        keys_before(lines, st, line, at),
        line < line2 || (line == line2 && at <= at2),
    ensures
        keys_before(lines, st, line2, at2),
{
}

/// A character that is read keeps the keys before it.
proof fn lemma_toml_step(lines: Seq<Seq<char>>, st: TomlView, i: int, k: int)
    requires
        0 <= i < lines.len(),
        0 <= k < lines[i].len(),
        st.quote is Some && st.here ==> 0 < st.start <= k + st.passed,
        st.quote is Some && !st.triple ==> st.here && st.passed == 0,
        st.passed >= 0,
        all_placed(lines, st.spots),
        keys_before(lines, st, i, passed(st, k)),
    ensures
        ({
            let now = toml_step(st, lines[i], i, k);
            &&& all_placed(lines, now.spots)
            &&& now.quote is Some && now.here ==> 0 < now.start <= k + 1 + now.passed
            &&& now.quote is Some && !now.triple ==> now.here && now.passed == 0
            &&& now.passed >= 0
            &&& keys_before(lines, now, i, passed(now, k + 1))
        }),
{
    let line = lines[i];
    let now = toml_step(st, line, i, k);
    let end = passed(now, k + 1);
    assert(passed(st, k) <= end);
    lemma_keys_later(lines, st, i, passed(st, k), i, end);
    assert forall|j: int| 0 <= j < now.spots.len() implies is_placed(
        lines,
        #[trigger] now.spots[j],
    ) by {
        if j < st.spots.len() {
            assert(is_placed(lines, st.spots[j]));
        }
    }
    if now.part.text.len() > 0 && now.part != st.part {
        let part = now.part;
        assert(line.subrange(part.at, part.at + part.text.len()) == part.text);
    }
    assert forall|j: int| 0 <= j < now.path.len() implies (key_of(
        #[trigger] now.path[j],
    ) matches Some(key) ==> stands_before(lines, key, i, end)) by {
        if j < st.path.len() {
            let step = st.path[j];
        }
    }
    assert forall|j: int| 0 <= j < now.header.len() implies (key_of(
        #[trigger] now.header[j],
    ) matches Some(key) ==> stands_before(lines, key, i, end)) by {
        if j < st.header.len() {
            let step = st.header[j];
        }
        if j < st.path.len() {
            let step = st.path[j];
        }
    }
}

proof fn lemma_toml_line(lines: Seq<Seq<char>>, st: TomlView, i: int, n: int)
    requires
        0 <= i < lines.len(),
        0 <= n <= lines[i].len(),
        all_placed(lines, st.spots),
        keys_before(lines, st, i, 0),
    ensures
        ({
            let now = toml_line(st, lines[i], i, n);
            &&& all_placed(lines, now.spots)
            &&& now.quote is Some && now.here ==> 0 < now.start <= n + now.passed
            &&& now.quote is Some && !now.triple ==> now.here && now.passed == 0
            &&& now.passed >= 0
            &&& keys_before(lines, now, i, passed(now, n))
        }),
    decreases n,
{
    if n > 0 {
        lemma_toml_line(lines, st, i, n - 1);
        lemma_toml_step(lines, toml_line(st, lines[i], i, n - 1), i, n - 1);
    }
}

proof fn lemma_toml_lines(lines: Seq<Seq<char>>, n: int)
    requires
        0 <= n <= lines.len(),
    ensures
        all_placed(lines, toml_lines(lines, n).spots),
        keys_before(lines, toml_lines(lines, n), n, 0),
    decreases n,
{
    if n > 0 {
        lemma_toml_lines(lines, n - 1);
        let size = lines[n - 1].len() as int;
        lemma_toml_line(lines, toml_lines(lines, n - 1), n - 1, size);
        let now = toml_lines(lines, n);
        lemma_keys_later(lines, now, n - 1, passed(now, size), n, 0);
    }
}

/// The strings of an outline stand where it says.
pub proof fn law_toml_outline_placed(lines: Seq<Seq<char>>)
    ensures
        all_placed(lines, toml_outline(lines)),
{
    lemma_toml_lines(lines, lines.len() as int);
}

/// No key of a path is written with escapes.
pub open spec fn all_plain(path: Seq<StepView>) -> bool {
    forall|j: int| 0 <= j < path.len() ==> !((#[trigger] path[j]) is Escaped)
}

/// No key of what has been read is written with escapes.
spec fn is_plain(st: TomlView) -> bool {
    &&& all_plain(st.path)
    &&& all_plain(st.header)
    &&& forall|i: int| 0 <= i < st.spots.len() ==> all_plain((#[trigger] st.spots[i]).path)
}

proof fn lemma_plain_line(st: TomlView, line: Seq<char>, i: int, n: int)
    requires
        is_plain(st),
    ensures
        is_plain(toml_line(st, line, i, n)),
    decreases n,
{
    if n > 0 {
        lemma_plain_line(st, line, i, n - 1);
        let before = toml_line(st, line, i, n - 1);
        let now = toml_line(st, line, i, n);
        assert(all_plain(now.path));
        assert(all_plain(now.header));
        assert forall|j: int| 0 <= j < now.spots.len() implies all_plain(
            (#[trigger] now.spots[j]).path,
        ) by {
            if j < before.spots.len() {
                assert(all_plain(before.spots[j].path));
            }
        }
    }
}

proof fn lemma_plain_lines(lines: Seq<Seq<char>>, n: int)
    ensures
        is_plain(toml_lines(lines, n)),
    decreases n,
{
    if n > 0 {
        lemma_plain_lines(lines, n - 1);
        lemma_plain_line(
            toml_lines(lines, n - 1),
            lines[n - 1],
            n - 1,
            lines[n - 1].len() as int,
        );
    }
}

/// Keys are what is written.
pub proof fn lemma_toml_keys_plain(lines: Seq<Seq<char>>, spot: SpotView)
    requires
        toml_outline(lines).contains(spot),
    ensures
        all_plain(spot.path),
{
    lemma_plain_lines(lines, lines.len() as int);
}

/// The strings that have been read end before this index of their line, or
/// before the string that the reading is inside of.
spec fn reached(st: TomlView, n: int) -> int {
    if st.quote is Some && st.here {
        st.start
    } else {
        n
    }
}

proof fn lemma_toml_line_order(lines: Seq<Seq<char>>, st: TomlView, i: int, n: int)
    requires
        0 <= i < lines.len(),
        0 <= n <= lines[i].len(),
        in_order(st.spots),
        all_end_before(st.spots, i, 0),
    ensures
        ({
            let now = toml_line(st, lines[i], i, n);
            &&& in_order(now.spots)
            &&& all_end_before(now.spots, i, reached(now, n))
            &&& now.quote is Some && now.here ==> 0 < now.start <= n + now.passed
            &&& now.quote is Some && !now.triple ==> now.here && now.passed == 0
            &&& now.passed >= 0
        }),
    decreases n,
{
    if n > 0 {
        lemma_toml_line_order(lines, st, i, n - 1);
        let before = toml_line(st, lines[i], i, n - 1);
        let now = toml_line(st, lines[i], i, n);
        assert forall|j: int| 0 <= j < now.spots.len() implies ends_before(
            #[trigger] now.spots[j],
            i,
            reached(now, n),
        ) by {
            if j < before.spots.len() {
                assert(ends_before(before.spots[j], i, reached(before, n - 1)));
            }
        }
    }
}

proof fn lemma_toml_order(lines: Seq<Seq<char>>, n: int)
    requires
        0 <= n <= lines.len(),
    ensures
        in_order(toml_lines(lines, n).spots),
        all_end_before(toml_lines(lines, n).spots, n, 0),
    decreases n,
{
    if n > 0 {
        lemma_toml_order(lines, n - 1);
        let size = lines[n - 1].len() as int;
        lemma_toml_line_order(lines, toml_lines(lines, n - 1), n - 1, size);
    }
}

/// The strings of an outline stand one behind the other.
pub proof fn law_toml_outline_in_order(lines: Seq<Seq<char>>)
    ensures
        in_order(toml_outline(lines)),
{
    lemma_toml_order(lines, lines.len() as int);
}

/// Whether the character at index `k` of a line stands at the two indices behind
/// it too.
fn is_tripled(line: &[char], k: usize) -> (r: bool)
    requires
        k < line@.len(),
    ensures
        r == tripled(line@, k as int),
{
    let size: usize = line.len();
    size - k > 2 && line[k + 1] == line[k] && line[k + 2] == line[k]
}

/// Nothing of a key has been read.
fn empty_key() -> (r: Key)
    ensures
        r@ == no_key(),
{
    Key { text: Vec::new(), line: 0, at: 0 }
}

impl TomlScan {
    /// Shortens the path.
    fn cut_path(&mut self, depth: usize)
        ensures
            final(self)@ == (TomlView {
                path: cut(old(self)@.path, depth as int),
                ..old(self)@
            }),
    {
        let ghost before = path_view(self.path@);
        if depth < self.path.len() {
            self.path.truncate(depth);
        }
        assert(path_view(self.path@) == cut(before, depth as int));
    }

    /// Goes on to the next item of a list.
    fn next_path(&mut self)
        ensures
            final(self)@ == (TomlView { path: to_next(old(self)@.path), ..old(self)@ }),
    {
        let ghost before = path_view(self.path@);
        let size: usize = self.path.len();
        if size > 0 {
            assert(before[size - 1] == self.path@[size - 1]@);
            let number: Option<usize> = match &self.path[size - 1] {
                Step::Item(n) => Some(
                    if *n < usize::MAX {
                        *n + 1
                    } else {
                        *n
                    },
                ),
                _ => None,
            };
            if let Some(n) = number {
                let gone = self.path.pop();
                self.path.push(Step::Item(n));
            }
        }
        assert(path_view(self.path@) == to_next(before));
    }

    /// Goes on with a key, or begins one.
    fn spell(&mut self, line: &[char], i: usize, k: usize)
        requires
            k < line@.len(),
        ensures
            final(self)@ == spelled(old(self)@, line@, i as int, k as int),
    {
        let ghost before = self@;
        let size: usize = self.part.text.len();
        let joined = size > 0 && self.part.line == i && size <= k && self.part.at == k - size;
        if joined {
            self.part.text.push(line[k]);
        } else {
            let mut text: Vec<char> = Vec::new();
            text.push(line[k]);
            self.part = Key { text, line: i, at: k };
            assert(self.part.text@ == seq![line@[k as int]]);
        }
        assert(self@ =~= spelled(before, line@, i as int, k as int));
    }

    /// Makes the key that has been read part of the path.
    fn key(&mut self)
        ensures
            final(self)@ == keyed(old(self)@),
    {
        let ghost before = self@;
        let step = if self.part.text.len() == 0 {
            Step::Open
        } else {
            Step::Key(copy_key(&self.part))
        };
        assert(step@ == step_of(before.part));
        assert(path_view(self.path@.push(step)) == before.path.push(step@));
        self.path.push(step);
        self.part = empty_key();
    }

    /// Ends a header.
    fn end_header(&mut self)
        ensures
            final(self)@ == header_end(old(self)@),
    {
        self.key();
        let ghost named = path_view(self.path@);
        if self.double {
            self.path.push(Step::Open);
            assert(path_view(self.path@) == named.push(StepView::Open));
        }
        self.header = copy_path(&self.path);
        self.naming = false;
        self.ended = true;
    }

    /// Ends a string on line `i`.
    fn end_string(&mut self, i: usize, text: Vec<char>)
        ensures
            final(self)@ == toml_string(old(self)@, i as int, text@),
    {
        let ghost before = self@;
        self.quote = None;
        if self.value {
            let spot = Spot {
                path: copy_path(&self.path),
                line: i,
                at: self.start,
                text,
            };
            assert(spots_view(self.spots@.push(spot)) == before.spots.push(spot@));
            self.spots.push(spot);
        } else {
            self.part = Key { text, line: i, at: self.start };
        }
    }

    /// Reads a character inside a string.
    fn inside(&mut self, q: char, line: &[char], i: usize, k: usize)
        requires
            k < line@.len(),
            !old(self).triple || old(self).here ==> old(self).start <= k,
        ensures
            final(self)@ == toml_inside(old(self)@, q, line@, i as int, k as int),
    {
        let c = line[k];
        if self.escaped {
            self.escaped = false;
        } else if c == '\\' && q == '"' {
            self.escaped = true;
        } else if c != q {
        } else if !self.triple {
            let text = copy_text(slice_subrange(line, self.start, k));
            self.end_string(i, text);
        } else if is_tripled(line, k) {
            self.triple = false;
            self.passed = 2;
            if self.here {
                let text = copy_text(slice_subrange(line, self.start, k));
                self.end_string(i, text);
            } else {
                self.quote = None;
            }
        }
    }

    /// Reads a character of a header.
    fn header(&mut self, line: &[char], i: usize, k: usize)
        requires
            k < line@.len(),
        ensures
            final(self)@ == toml_header(old(self)@, line@, i as int, k as int),
    {
        let c = line[k];
        if c == '[' {
            self.double = true;
        } else if c == '.' {
            self.key();
        } else if c == ']' {
            self.end_header();
        } else if white_space(c) {
        } else {
            self.spell(line, i, k);
        }
    }

    /// Goes on to the next item of a list, or the next key of an inline table.
    fn next(&mut self)
        ensures
            final(self)@ == next_item(old(self)@),
    {
        let size: usize = self.frames.len();
        if size > 0 {
            let frame = self.frames[size - 1];
            self.cut_path(frame.depth);
            if frame.list {
                self.next_path();
            }
            self.value = frame.list;
            self.part = empty_key();
        }
    }

    /// Ends a list or an inline table.
    fn close(&mut self)
        ensures
            final(self)@ == closed(old(self)@),
    {
        let size: usize = self.frames.len();
        if size > 0 {
            let frame = self.frames[size - 1];
            self.cut_path(frame.depth);
            let gone = self.frames.pop();
            self.value = true;
            self.part = empty_key();
        }
    }

    /// Reads a character where a value is due.
    fn value(&mut self, c: char)
        ensures
            final(self)@ == toml_value(old(self)@, c),
    {
        let ghost before = self@;
        if c == '[' {
            self.path.push(Step::Item(0));
            assert(path_view(self.path@) == before.path.push(StepView::Item(0)));
            self.frames.push(Frame { depth: self.path.len(), list: true });
        } else if c == '{' {
            self.frames.push(Frame { depth: self.path.len(), list: false });
            self.value = false;
            self.part = empty_key();
        }
    }

    /// Reads a character where a key is due.
    fn naming(&mut self, line: &[char], i: usize, k: usize)
        requires
            k < line@.len(),
        ensures
            final(self)@ == toml_key(old(self)@, line@, i as int, k as int),
    {
        let c = line[k];
        if c == '[' && self.frames.len() == 0 {
            self.naming = true;
            self.double = false;
            self.path = Vec::new();
            self.part = empty_key();
            assert(path_view(self.path@) == Seq::<StepView>::empty());
        } else if c == '.' {
            self.key();
        } else if c == '=' {
            self.key();
            self.value = true;
        } else if white_space(c) {
        } else {
            self.spell(line, i, k);
        }
    }

    /// Reads the character at index `k` of line `i`.
    fn step(&mut self, line: &[char], i: usize, k: usize)
        requires
            k < line@.len(),
            old(self).quote is Some && old(self).here ==> old(self).start <= k + old(self).passed,
            old(self).quote is Some && !old(self).triple ==> old(self).here && old(self).passed
                == 0,
        ensures
            final(self)@ == toml_step(old(self)@, line@, i as int, k as int),
    {
        let c = line[k];
        if self.passed > 0 {
            self.passed = self.passed - 1;
        } else if self.ended {
        } else if let Some(q) = self.quote {
            self.inside(q, line, i, k);
        } else if c == '"' || c == '\'' {
            self.quote = Some(c);
            self.here = true;
            if self.value && is_tripled(line, k) {
                let size: usize = line.len();
                self.triple = true;
                self.passed = 2;
                self.start = k + 3;
            } else {
                self.triple = false;
                self.start = k + 1;
            }
        } else if c == '#' {
            self.ended = true;
        } else if self.naming {
            self.header(line, i, k);
        } else if c == ',' {
            self.next();
        } else if c == '}' || c == ']' {
            self.close();
        } else if self.value {
            self.value(c);
        } else {
            self.naming(line, i, k);
        }
    }

    /// Begins a new line.
    fn line_start(&mut self)
        ensures
            final(self)@ == toml_line_start(old(self)@),
    {
        if !self.triple {
            self.quote = None;
        }
        self.triple = self.quote.is_some();
        self.here = false;
        self.escaped = false;
        self.passed = 0;
        self.ended = false;
        self.naming = false;
        if self.frames.len() == 0 && !self.triple {
            self.path = copy_path(&self.header);
            self.value = false;
            self.part = empty_key();
        }
    }
}

/// The strings that stand as values in a TOML document.
pub fn outline_toml(lines: Vec<Vec<char>>) -> (r: Outline)
    ensures
        r.rows() == parts_view(lines@),
        r.strings() == toml_outline(parts_view(lines@)),
        r.valid(),
{
    let ghost all = parts_view(lines@);
    let mut scan = TomlScan {
        header: Vec::new(),
        path: Vec::new(),
        frames: Vec::new(),
        part: empty_key(),
        value: false,
        naming: false,
        double: false,
        quote: None,
        triple: false,
        here: false,
        escaped: false,
        start: 0,
        passed: 0,
        ended: false,
        spots: Vec::new(),
    };
    assert(scan@ =~= toml_start());
    for i in 0..lines.len()
        invariant
            all == parts_view(lines@),
            scan@ == toml_lines(all, i as int),
    {
        let line = lines[i].as_slice();
        assert(line@ == all[i as int]);
        let ghost before = scan@;
        proof {
            lemma_toml_lines(all, i as int);
        }
        scan.line_start();
        for k in 0..line.len()
            invariant
                i < all.len(),
                line@ == all[i as int],
                all_placed(all, before.spots),
                keys_before(all, before, i as int, 0),
                scan@ == toml_line(before, line@, i as int, k as int),
        {
            proof {
                lemma_toml_line(all, before, i as int, k as int);
            }
            scan.step(line, i, k);
        }
    }
    proof {
        law_toml_outline_placed(all);
    }
    Outline { lines, spots: scan.spots }
}

} // verus!
