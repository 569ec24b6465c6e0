//! Outlines of JSON documents.
use vstd::prelude::*;
use vstd::slice::slice_subrange;
use super::{
    all_before, all_end_before, all_placed, copy_path, copy_text, ends_before, in_order, is_placed,
    key_of, path_view, spots_view, stands_before, Key, KeyView, Outline, Spot, SpotView, Step,
    StepView,
};
use crate::document::{json_document, parse_json, Node, NodeView};
use crate::locate::{quote, quoted};
use crate::text::chars::{chars_of, push_chars, string_of};
use crate::text::search::{find_char, parts_view, position_char};

verus! {

/// How far a JSON document has been read.
pub struct JsonScan {
    /// The steps that lead to where the reading is.
    pub path: Vec<Step>,
    /// A value follows, not a key.
    pub value: bool,
    /// The reading is inside a string.
    pub inside: bool,
    /// The next character is escaped.
    pub escaped: bool,
    /// The index on its line of the string's first character.
    pub start: usize,
    /// The strings that have been read.
    pub spots: Vec<Spot>,
}

/// How far a JSON document has been read, as a mathematical value.
#[verifier::ext_equal]
pub struct JsonView {
    pub path: Seq<StepView>,
    pub value: bool,
    pub inside: bool,
    pub escaped: bool,
    pub start: int,
    pub spots: Seq<SpotView>,
}

impl View for JsonScan {
    type V = JsonView;

    open spec fn view(&self) -> JsonView {
        JsonView {
            path: path_view(self.path@),
            value: self.value,
            inside: self.inside,
            escaped: self.escaped,
            start: self.start as int,
            spots: spots_view(self.spots@),
        }
    }
}

/// Before anything is read.
pub open spec fn json_start() -> JsonView {
    JsonView {
        path: seq![],
        value: false,
        inside: false,
        escaped: false,
        start: 0,
        spots: seq![],
    }
}

/// A path whose last step is replaced.
pub open spec fn with_last(path: Seq<StepView>, step: StepView) -> Seq<StepView> {
    if path.len() == 0 {
        path
    } else {
        path.drop_last().push(step)
    }
}

/// A path without its last step.
pub open spec fn without_last(path: Seq<StepView>) -> Seq<StepView> {
    if path.len() == 0 {
        path
    } else {
        path.drop_last()
    }
}

/// What a key that is written with escapes reads.
pub open spec fn unescaped(text: Seq<char>) -> Seq<char> {
    match json_document(quoted(text)) {
        Some(NodeView::Text(name)) => name,
        _ => text,
    }
}

/// The step to the value of a key.
pub open spec fn json_key(key: KeyView) -> StepView {
    if find_char(key.text, '\\') is Some {
        StepView::Escaped(key, unescaped(key.text))
    } else {
        StepView::Key(key)
    }
}

/// The end of a string on line `i`: a value is noted, and a key becomes part of
/// the path.
pub open spec fn json_string(st: JsonView, i: int, text: Seq<char>) -> JsonView {
    if st.value {
        JsonView {
            inside: false,
            spots: st.spots.push(SpotView { path: st.path, line: i, at: st.start, text }),
            ..st
        }
    } else {
        let key = KeyView { text, line: i, at: st.start };
        JsonView { inside: false, path: with_last(st.path, json_key(key)), ..st }
    }
}

/// The character at index `k` of line `i` is read.
pub open spec fn json_step(st: JsonView, line: Seq<char>, i: int, k: int) -> JsonView {
    let c = line[k];
    if st.inside {
        if st.escaped {
            JsonView { escaped: false, ..st }
        } else if c == '\\' {
            JsonView { escaped: true, ..st }
        } else if c == '"' {
            json_string(st, i, line.subrange(st.start, k))
        } else {
            st
        }
    } else if c == '"' {
        JsonView { inside: true, start: k + 1, ..st }
    } else if c == ':' {
        JsonView { value: true, ..st }
    } else if c == ',' {
        JsonView { value: false, path: with_last(st.path, StepView::Open), ..st }
    } else if c == '{' || c == '[' {
        JsonView { value: false, path: st.path.push(StepView::Open), ..st }
    } else if c == '}' || c == ']' {
        JsonView { value: false, path: without_last(st.path), ..st }
    } else {
        st
    }
}

/// A new line begins. No string goes on from one line to the next.
pub open spec fn json_line_start(st: JsonView) -> JsonView {
    JsonView { inside: false, escaped: false, ..st }
}

/// The first `n` characters of line `i` are read.
pub open spec fn json_line(st: JsonView, line: Seq<char>, i: int, n: int) -> JsonView
    decreases n,
{
    if n <= 0 {
        json_line_start(st)
    } else {
        json_step(json_line(st, line, i, n - 1), line, i, n - 1)
    }
}

/// The first `n` lines are read.
pub open spec fn json_lines(lines: Seq<Seq<char>>, n: int) -> JsonView
    decreases n,
{
    if n <= 0 {
        json_start()
    } else {
        json_line(
            json_lines(lines, n - 1),
            lines[n - 1],
            n - 1,
            lines[n - 1].len() as int,
        )
    }
}

/// The strings that stand as values in the tables of a JSON document.
pub open spec fn json_outline(lines: Seq<Seq<char>>) -> Seq<SpotView> {
    json_lines(lines, lines.len() as int).spots
}

/// What has been read of line `i` ends at this index, or where the string began
/// that the reading is inside of.
spec fn passed(st: JsonView, n: int) -> int {
    if st.inside {
        st.start - 1
    } else {
        n
    }
}

proof fn lemma_json_line(lines: Seq<Seq<char>>, st: JsonView, i: int, n: int)
    requires
        0 <= i < lines.len(),
        0 <= n <= lines[i].len(),
        all_placed(lines, st.spots),
        all_before(lines, st.path, i, 0),
    ensures
        ({
            let now = json_line(st, lines[i], i, n);
            &&& all_placed(lines, now.spots)
            &&& now.inside ==> 0 < now.start <= n
            &&& all_before(lines, now.path, i, passed(now, n))
        }),
    decreases n,
{
    if n > 0 {
        lemma_json_line(lines, st, i, n - 1);
        let before = json_line(st, lines[i], i, n - 1);
        let now = json_line(st, lines[i], i, n);
        assert forall|j: int| 0 <= j < now.spots.len() implies is_placed(
            lines,
            #[trigger] now.spots[j],
        ) by {
            if j < before.spots.len() {
                assert(is_placed(lines, before.spots[j]));
            }
        }
        assert forall|j: int| 0 <= j < now.path.len() implies (key_of(
            #[trigger] now.path[j],
        ) matches Some(key) ==> stands_before(lines, key, i, passed(now, n))) by {
            if j < before.path.len() {
                let step = before.path[j];
            }
        }
    }
}

proof fn lemma_json_lines(lines: Seq<Seq<char>>, n: int)
    requires
        0 <= n <= lines.len(),
    ensures
        all_placed(lines, json_lines(lines, n).spots),
        all_before(lines, json_lines(lines, n).path, n, 0),
    decreases n,
{
    if n > 0 {
        lemma_json_lines(lines, n - 1);
        let size = lines[n - 1].len() as int;
        lemma_json_line(lines, json_lines(lines, n - 1), n - 1, size);
    }
}

/// The strings of an outline stand where it says.
pub proof fn law_json_outline_placed(lines: Seq<Seq<char>>)
    ensures
        all_placed(lines, json_outline(lines)),
{
    lemma_json_lines(lines, lines.len() as int);
}

/// The strings that have been read end before this index of their line, or
/// before the string that the reading is inside of.
spec fn reached(st: JsonView, n: int) -> int {
    if st.inside {
        st.start
    } else {
        n
    }
}

proof fn lemma_json_line_order(lines: Seq<Seq<char>>, st: JsonView, i: int, n: int)
    requires
        0 <= i < lines.len(),
        0 <= n <= lines[i].len(),
        in_order(st.spots),
        all_end_before(st.spots, i, 0),
    ensures
        ({
            let now = json_line(st, lines[i], i, n);
            &&& in_order(now.spots)
            &&& all_end_before(now.spots, i, reached(now, n))
            &&& now.inside ==> 0 < now.start <= n
        }),
    decreases n,
{
    if n > 0 {
        lemma_json_line_order(lines, st, i, n - 1);
        let before = json_line(st, lines[i], i, n - 1);
        let now = json_line(st, lines[i], i, n);
        assert forall|j: int| 0 <= j < now.spots.len() implies ends_before(
            #[trigger] now.spots[j],
            i,
            reached(now, n),
        ) by {
            if j < before.spots.len() {
                assert(ends_before(before.spots[j], i, reached(before, n - 1)));
            }
        }
    }
}

proof fn lemma_json_order(lines: Seq<Seq<char>>, n: int)
    requires
        0 <= n <= lines.len(),
    ensures
        in_order(json_lines(lines, n).spots),
        all_end_before(json_lines(lines, n).spots, n, 0),
    decreases n,
{
    if n > 0 {
        lemma_json_order(lines, n - 1);
        let size = lines[n - 1].len() as int;
        lemma_json_line_order(lines, json_lines(lines, n - 1), n - 1, size);
    }
}

/// The strings of an outline stand one behind the other.
pub proof fn law_json_outline_in_order(lines: Seq<Seq<char>>)
    ensures
        in_order(json_outline(lines)),
{
    lemma_json_order(lines, lines.len() as int);
}

/// The step to the value of a key.
fn read_key(key: Key) -> (r: Step)
    ensures
        r@ == json_key(key@),
{
    if position_char(key.text.as_slice(), '\\').is_none() {
        return Step::Key(key);
    }
    let written = quote(key.text.as_slice());
    let text = string_of(written.as_slice());
    let name = match parse_json(text.as_str()) {
        Some(Node::Text(name)) => chars_of(name.as_str()),
        _ => copy_text(key.text.as_slice()),
    };
    Step::Escaped(key, name)
}

impl JsonScan {
    /// Reads the character at index `k` of line `i`.
    fn step(&mut self, line: &[char], i: usize, k: usize)
        requires
            k < line@.len(),
            old(self).inside ==> old(self).start <= k,
        ensures
            final(self)@ == json_step(old(self)@, line@, i as int, k as int),
    {
        let c = line[k];
        let ghost before = self@;
        if self.inside {
            if self.escaped {
                self.escaped = false;
            } else if c == '\\' {
                self.escaped = true;
            } else if c == '"' {
                let mut text: Vec<char> = Vec::new();
                push_chars(&mut text, slice_subrange(line, self.start, k));
                assert(text@ == line@.subrange(before.start, k as int));
                self.inside = false;
                if self.value {
                    let spot = Spot {
                        path: copy_path(&self.path),
                        line: i,
                        at: self.start,
                        text,
                    };
                    assert(spots_view(self.spots@.push(spot)) == before.spots.push(spot@));
                    self.spots.push(spot);
                } else {
                    let key = Key { text, line: i, at: self.start };
                    self.set_last(read_key(key));
                }
            }
        } else if c == '"' {
            self.inside = true;
            self.start = k + 1;
        } else if c == ':' {
            self.value = true;
        } else if c == ',' {
            self.value = false;
            self.set_last(Step::Open);
        } else if c == '{' || c == '[' {
            self.value = false;
            self.path.push(Step::Open);
            assert(path_view(self.path@) == before.path.push(StepView::Open));
        } else if c == '}' || c == ']' {
            self.value = false;
            let gone = self.path.pop();
            assert(path_view(self.path@) == without_last(before.path));
        }
        assert(self@ =~= json_step(before, line@, i as int, k as int));
    }

    /// Replaces the last step.
    fn set_last(&mut self, step: Step)
        ensures
            final(self)@ == (JsonView {
                path: with_last(old(self)@.path, step@),
                ..old(self)@
            }),
    {
        let ghost before = path_view(self.path@);
        if self.path.len() > 0 {
            let gone = self.path.pop();
            self.path.push(step);
        }
        assert(path_view(self.path@) == with_last(before, step@));
    }
}

/// The strings that stand as values in the tables of a JSON document.
pub fn outline_json(lines: Vec<Vec<char>>) -> (r: Outline)
    ensures
        r.rows() == parts_view(lines@),
        r.strings() == json_outline(parts_view(lines@)),
        r.valid(),
{
    let ghost all = parts_view(lines@);
    let mut scan = JsonScan {
        path: Vec::new(),
        value: false,
        inside: false,
        escaped: false,
        start: 0,
        spots: Vec::new(),
    };
    assert(scan@ =~= json_start());
    for i in 0..lines.len()
        invariant
            all == parts_view(lines@),
            scan@ == json_lines(all, i as int),
    {
        let line = lines[i].as_slice();
        assert(line@ == all[i as int]);
        let ghost before = scan@;
        proof {
            lemma_json_lines(all, i as int);
        }
        scan.inside = false;
        scan.escaped = false;
        assert(scan@ =~= json_line(before, line@, i as int, 0));
        for k in 0..line.len()
            invariant
                i < all.len(),
                line@ == all[i as int],
                all_placed(all, before.spots),
                all_before(all, before.path, i as int, 0),
                scan@ == json_line(before, line@, i as int, k as int),
        {
            proof {
                lemma_json_line(all, before, i as int, k as int);
            }
            scan.step(line, i, k);
        }
    }
    proof {
        law_json_outline_placed(all);
    }
    Outline { lines, spots: scan.spots }
}

} // verus!
