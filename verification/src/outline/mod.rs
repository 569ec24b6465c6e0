//! Outlines: where the strings of a structured document stand, and under which
//! keys.
pub mod json;
pub mod json_rows;
pub mod toml;
pub mod toml_lists;
pub mod toml_rows;

use vstd::prelude::*;
use crate::locate::{inner_span, lemma_occurs_inside, span, stands_at, Range};
use crate::text::chars::{push_chars, same};
use crate::text::search::{lemma_parts_push, occurs_at, parts_view, split, split_on};

verus! {

/// A key, and where it stands in its document.
#[derive(Debug)]
pub struct Key {
    pub text: Vec<char>,
    pub line: usize,
    /// The index on its line of the key's first character.
    pub at: usize,
}

/// A key as a mathematical value.
#[verifier::ext_equal]
pub struct KeyView {
    pub text: Seq<char>,
    pub line: int,
    pub at: int,
}

/// One step on the way to a value.
#[derive(Debug)]
pub enum Step {
    /// Into a table whose key is not known, or one of a list of tables.
    Open,
    /// To an item of a list, by its number.
    Item(usize),
    /// To the value of a key.
    Key(Key),
    /// To the value of a key that is written with escapes, and what it reads.
    Escaped(Key, Vec<char>),
}

/// A step as a mathematical value.
#[verifier::ext_equal]
pub enum StepView {
    Open,
    Item(int),
    Key(KeyView),
    Escaped(KeyView, Seq<char>),
}

/// A string in a document.
#[derive(Debug)]
pub struct Spot {
    /// The steps that lead to the string.
    pub path: Vec<Step>,
    pub line: usize,
    /// The index on its line of the string's first character.
    pub at: usize,
    /// What stands between the quotation marks.
    pub text: Vec<char>,
}

/// A string in a document as a mathematical value.
#[verifier::ext_equal]
pub struct SpotView {
    pub path: Seq<StepView>,
    pub line: int,
    pub at: int,
    pub text: Seq<char>,
}

/// One part of an address: what a step has to be.
#[derive(Debug)]
pub enum Place {
    Item(usize),
    Key(Vec<char>),
}

/// A part of an address as a mathematical value.
#[verifier::ext_equal]
pub enum PlaceView {
    Open,
    Item(int),
    Key(Seq<char>),
}

impl View for Key {
    type V = KeyView;

    open spec fn view(&self) -> KeyView {
        KeyView { text: self.text@, line: self.line as int, at: self.at as int }
    }
}

impl View for Step {
    type V = StepView;

    open spec fn view(&self) -> StepView {
        match self {
            Step::Open => StepView::Open,
            Step::Item(n) => StepView::Item(*n as int),
            Step::Key(key) => StepView::Key(key@),
            Step::Escaped(key, name) => StepView::Escaped(key@, name@),
        }
    }
}

/// Steps as mathematical values.
pub open spec fn path_view(path: Seq<Step>) -> Seq<StepView> {
    path.map_values(|s: Step| s@)
}

impl View for Spot {
    type V = SpotView;

    open spec fn view(&self) -> SpotView {
        SpotView {
            path: path_view(self.path@),
            line: self.line as int,
            at: self.at as int,
            text: self.text@,
        }
    }
}

/// Spots as mathematical values.
pub open spec fn spots_view(spots: Seq<Spot>) -> Seq<SpotView> {
    spots.map_values(|s: Spot| s@)
}

impl View for Place {
    type V = PlaceView;

    open spec fn view(&self) -> PlaceView {
        match self {
            Place::Item(n) => PlaceView::Item(*n as int),
            Place::Key(key) => PlaceView::Key(key@),
        }
    }
}

/// An address as a mathematical value.
pub open spec fn address_view(address: Seq<Place>) -> Seq<PlaceView> {
    address.map_values(|p: Place| p@)
}

/// What a step is, wherever its key stands.
pub open spec fn place_of(step: StepView) -> PlaceView {
    match step {
        StepView::Open => PlaceView::Open,
        StepView::Item(n) => PlaceView::Item(n),
        StepView::Key(key) => PlaceView::Key(key.text),
        StepView::Escaped(key, name) => PlaceView::Key(name),
    }
}

/// The key of a step, where it has one.
pub open spec fn key_of(step: StepView) -> Option<KeyView> {
    match step {
        StepView::Key(key) => Some(key),
        StepView::Escaped(key, name) => Some(key),
        _ => None,
    }
}

/// The address that a path leads to.
pub open spec fn address_of(path: Seq<StepView>) -> Seq<PlaceView> {
    path.map_values(|s: StepView| place_of(s))
}

/// The address of the value under some keys.
pub open spec fn under(keys: Seq<Seq<char>>) -> Seq<PlaceView> {
    keys.map_values(|k: Seq<char>| PlaceView::Key(k))
}

/// A key stands in the document, and ends before index `at` of a line.
pub open spec fn stands_before(
    lines: Seq<Seq<char>>,
    key: KeyView,
    line: int,
    at: int,
) -> bool {
    &&& 0 <= key.line < lines.len()
    &&& occurs_at(lines[key.line], key.text, key.at)
    &&& key.line < line || (key.line == line && key.at + key.text.len() <= at)
}

/// All keys of a path end before index `at` of a line.
pub open spec fn all_before(
    lines: Seq<Seq<char>>,
    path: Seq<StepView>,
    line: int,
    at: int,
) -> bool {
    forall|j: int|
        0 <= j < path.len() ==> (key_of(#[trigger] path[j]) matches Some(key) ==> stands_before(
            lines,
            key,
            line,
            at,
        ))
}

/// A spot stands on its line, behind the keys that lead to it.
pub open spec fn is_placed(lines: Seq<Seq<char>>, spot: SpotView) -> bool {
    &&& 0 <= spot.line < lines.len()
    &&& occurs_at(lines[spot.line], spot.text, spot.at)
    &&& all_before(lines, spot.path, spot.line, spot.at - 1)
}

/// All spots stand on their lines.
pub open spec fn all_placed(lines: Seq<Seq<char>>, spots: Seq<SpotView>) -> bool {
    forall|i: int| 0 <= i < spots.len() ==> is_placed(lines, #[trigger] spots[i])
}

/// A text that is written between double quotation marks as it is.
pub open spec fn is_simple(s: Seq<char>) -> bool {
    forall|i: int| 0 <= i < s.len() ==> #[trigger] s[i] != '"' && s[i] != '\\'
}

/// A spot ends before index `at` of a line.
pub open spec fn ends_before(spot: SpotView, line: int, at: int) -> bool {
    spot.line < line || (spot.line == line && spot.at + spot.text.len() < at)
}

/// All spots end before index `at` of a line.
pub open spec fn all_end_before(spots: Seq<SpotView>, line: int, at: int) -> bool {
    forall|i: int| 0 <= i < spots.len() ==> ends_before(#[trigger] spots[i], line, at)
}

/// The spots stand one behind the other.
pub open spec fn in_order(spots: Seq<SpotView>) -> bool {
    forall|i: int, j: int|
        0 <= i < j < spots.len() ==> ends_before(
            #[trigger] spots[i],
            (#[trigger] spots[j]).line,
            spots[j].at,
        )
}

/// Strings under different addresses stand apart.
pub proof fn law_addresses_apart(spots: Seq<SpotView>, a: SpotView, b: SpotView)
    requires
        in_order(spots),
        spots.contains(a),
        spots.contains(b),
        address_of(a.path) != address_of(b.path),
    ensures
        ends_before(a, b.line, b.at) || ends_before(b, a.line, a.at),
{
    let i = choose|i: int| 0 <= i < spots.len() && spots[i] == a;
    let j = choose|j: int| 0 <= j < spots.len() && spots[j] == b;
    if i < j {
        assert(ends_before(spots[i], spots[j].line, spots[j].at));
    } else if j < i {
        assert(ends_before(spots[j], spots[i].line, spots[i].at));
    }
}

/// The last of the first `n` spots that has an address and a text.
pub open spec fn last_spot(
    spots: Seq<SpotView>,
    n: int,
    address: Seq<PlaceView>,
    text: Seq<char>,
) -> Option<SpotView>
    decreases n,
{
    if n <= 0 {
        None
    } else if address_of(spots[n - 1].path) == address && spots[n - 1].text == text {
        Some(spots[n - 1])
    } else {
        last_spot(spots, n - 1, address, text)
    }
}

/// The spot with an address and a text. Where there are several, the last one
/// counts.
pub open spec fn spot_of(
    spots: Seq<SpotView>,
    address: Seq<PlaceView>,
    text: Seq<char>,
) -> Option<SpotView> {
    last_spot(spots, spots.len() as int, address, text)
}

/// The range of `inner` where it stands `offset` characters into a spot.
pub open spec fn range_in(
    lines: Seq<Seq<char>>,
    spot: SpotView,
    offset: int,
    inner: Seq<char>,
) -> Range {
    span(spot.line, lines[spot.line].take(spot.at + offset), inner)
}

/// The range of `inner` where it stands `offset` characters into the string
/// that has an address and a text.
pub open spec fn located(
    lines: Seq<Seq<char>>,
    spots: Seq<SpotView>,
    address: Seq<PlaceView>,
    text: Seq<char>,
    offset: int,
    inner: Seq<char>,
) -> Option<Range> {
    match spot_of(spots, address, text) {
        Some(spot) => Some(range_in(lines, spot, offset, inner)),
        None => None,
    }
}

/// `range` is where `inner` stands, `offset` characters into a string of the
/// outline. That string has the given address and text, and stands behind the
/// keys of its address.
pub open spec fn lies_in(
    lines: Seq<Seq<char>>,
    spots: Seq<SpotView>,
    spot: SpotView,
    address: Seq<PlaceView>,
    text: Seq<char>,
    offset: int,
    inner: Seq<char>,
    range: Range,
) -> bool {
    &&& spots.contains(spot)
    &&& is_placed(lines, spot)
    &&& address_of(spot.path) == address
    &&& spot.text == text
    &&& stands_at(lines, range, inner, spot.line, spot.at + offset)
}

pub proof fn lemma_last_spot(
    spots: Seq<SpotView>,
    n: int,
    address: Seq<PlaceView>,
    text: Seq<char>,
)
    requires
        n <= spots.len(),
        last_spot(spots, n, address, text) is Some,
    ensures
        exists|i: int|
            0 <= i < n && #[trigger] spots[i] == last_spot(spots, n, address, text)->0,
        address_of(last_spot(spots, n, address, text)->0.path) == address,
        last_spot(spots, n, address, text)->0.text == text,
    decreases n,
{
    if !(address_of(spots[n - 1].path) == address && spots[n - 1].text == text) {
        lemma_last_spot(spots, n - 1, address, text);
    }
}

/// Where some spot has an address and a text, one is found.
pub proof fn lemma_spot_found(
    spots: Seq<SpotView>,
    n: int,
    address: Seq<PlaceView>,
    text: Seq<char>,
    i: int,
)
    requires
        0 <= i < n <= spots.len(),
        address_of(spots[i].path) == address,
        spots[i].text == text,
    ensures
        last_spot(spots, n, address, text) is Some,
        spots.contains(last_spot(spots, n, address, text)->0),
    decreases n,
{
    if !(address_of(spots[n - 1].path) == address && spots[n - 1].text == text) {
        lemma_spot_found(spots, n - 1, address, text, i);
    }
}

/// What is found in a spot lies there.
pub proof fn lemma_located(
    lines: Seq<Seq<char>>,
    spots: Seq<SpotView>,
    address: Seq<PlaceView>,
    text: Seq<char>,
    offset: int,
    inner: Seq<char>,
)
    requires
        all_placed(lines, spots),
        occurs_at(text, inner, offset),
        spot_of(spots, address, text) is Some,
    ensures
        ({
            let spot = spot_of(spots, address, text)->0;
            let range = range_in(lines, spot, offset, inner);
            lies_in(lines, spots, spot, address, text, offset, inner, range)
        }),
{
    lemma_last_spot(spots, spots.len() as int, address, text);
    let spot = spot_of(spots, address, text)->0;
    let i = choose|i: int| 0 <= i < spots.len() && #[trigger] spots[i] == spot;
    assert(is_placed(lines, spots[i]));
    assert(spots.contains(spot));
    lemma_occurs_inside(lines[spot.line], spot.text, spot.at, offset, inner);
    assert(stands_at(
        lines,
        range_in(lines, spot, offset, inner),
        inner,
        spot.line,
        spot.at + offset,
    ));
}

/// A key of a spot's address stands before the spot.
pub proof fn lemma_key_before(
    lines: Seq<Seq<char>>,
    spot: SpotView,
    address: Seq<PlaceView>,
    j: int,
    name: Seq<char>,
) -> (key: KeyView)
    requires
        is_placed(lines, spot),
        address_of(spot.path) == address,
        0 <= j < address.len(),
        address[j] == PlaceView::Key(name),
        spot.path[j] is Key,
    ensures
        key.text == name,
        stands_before(lines, key, spot.line, spot.at - 1),
{
    assert(place_of(spot.path[j]) == address[j]);
    spot.path[j]->Key_0
}

/// A text inside a spot stands on its line.
pub proof fn lemma_text_before(
    lines: Seq<Seq<char>>,
    spot: SpotView,
    name: Seq<char>,
    offset: int,
    end: int,
) -> (key: KeyView)
    requires
        is_placed(lines, spot),
        occurs_at(spot.text, name, offset),
        offset + name.len() <= end,
    ensures
        key.text == name,
        stands_before(lines, key, spot.line, spot.at + end),
{
    lemma_occurs_inside(lines[spot.line], spot.text, spot.at, offset, name);
    KeyView { text: name, line: spot.line, at: spot.at + offset }
}

/// A copy of some characters.
pub fn copy_text(s: &[char]) -> (r: Vec<char>)
    ensures
        r@ == s@,
{
    let mut out: Vec<char> = Vec::new();
    push_chars(&mut out, s);
    assert(out@ == s@);
    out
}

/// A copy of a key.
pub fn copy_key(key: &Key) -> (r: Key)
    ensures
        r@ == key@,
{
    Key { text: copy_text(key.text.as_slice()), line: key.line, at: key.at }
}

/// A copy of a step.
fn copy_step(step: &Step) -> (r: Step)
    ensures
        r@ == step@,
{
    match step {
        Step::Open => Step::Open,
        Step::Item(n) => Step::Item(*n),
        Step::Key(key) => Step::Key(copy_key(key)),
        Step::Escaped(key, name) => Step::Escaped(copy_key(key), copy_text(name.as_slice())),
    }
}

/// A copy of some steps.
pub fn copy_path(path: &Vec<Step>) -> (r: Vec<Step>)
    ensures
        path_view(r@) == path_view(path@),
{
    let ghost all = path_view(path@);
    let mut out: Vec<Step> = Vec::new();
    for i in 0..path.len()
        invariant
            all == path_view(path@),
            path_view(out@) == all.take(i as int),
    {
        let step = copy_step(&path[i]);
        proof {
            assert(step@ == all[i as int]);
            assert(path_view(out@.push(step)) == path_view(out@).push(step@));
            assert(all.take(i as int + 1) == all.take(i as int).push(all[i as int]));
        }
        out.push(step);
    }
    assert(all.take(all.len() as int) == all);
    out
}

/// Whether a step is what a part of an address says.
fn is_place(step: &Step, place: &Place) -> (r: bool)
    ensures
        r == (place_of(step@) == place@),
{
    match (step, place) {
        (Step::Item(a), Place::Item(b)) => *a == *b,
        (Step::Key(a), Place::Key(b)) => same(a.text.as_slice(), b.as_slice()),
        (Step::Escaped(_, a), Place::Key(b)) => same(a.as_slice(), b.as_slice()),
        _ => false,
    }
}

/// Whether a path leads to an address.
pub fn leads_to(path: &Vec<Step>, address: &Vec<Place>) -> (r: bool)
    ensures
        r == (address_of(path_view(path@)) == address_view(address@)),
{
    let ghost a = address_of(path_view(path@));
    let ghost b = address_view(address@);
    if path.len() != address.len() {
        assert(a.len() != b.len());
        return false;
    }
    for i in 0..path.len()
        invariant
            a == address_of(path_view(path@)),
            b == address_view(address@),
            path@.len() == address@.len(),
            forall|j: int| 0 <= j < i ==> a[j] == b[j],
    {
        assert(a[i as int] == place_of(path@[i as int]@) && b[i as int] == address@[i as int]@);
        if !is_place(&path[i], &address[i]) {
            assert(a[i as int] != b[i as int]);
            return false;
        }
    }
    assert(a == b);
    true
}

/// Adds a key to an address.
pub fn push_key(address: &mut Vec<Place>, key: &[char])
    ensures
        address_view(final(address)@) == address_view(old(address)@).push(PlaceView::Key(key@)),
{
    let place = Place::Key(copy_text(key));
    assert(address_view(address@.push(place)) == address_view(address@).push(place@));
    address.push(place);
}

/// The address of the value under some keys.
pub fn address_under(keys: &Vec<Vec<char>>) -> (r: Vec<Place>)
    ensures
        address_view(r@) == under(parts_view(keys@)),
{
    let ghost all = under(parts_view(keys@));
    let mut out: Vec<Place> = Vec::new();
    for i in 0..keys.len()
        invariant
            all == under(parts_view(keys@)),
            address_view(out@) == all.take(i as int),
    {
        push_key(&mut out, keys[i].as_slice());
        assert(all.take(i as int + 1) == all.take(i as int).push(all[i as int]));
    }
    assert(all.take(all.len() as int) == all);
    out
}

/// Finds the spot with an address and a text.
pub fn find_spot<'a>(spots: &'a Vec<Spot>, address: &Vec<Place>, text: &[char]) -> (r: Option<
    &'a Spot,
>)
    ensures
        match r {
            Some(s) => spot_of(spots_view(spots@), address_view(address@), text@) == Some(s@)
                && s.text@ == text@ && spots_view(spots@).contains(s@),
            None => spot_of(spots_view(spots@), address_view(address@), text@) is None,
        },
{
    let ghost all = spots_view(spots@);
    let mut n: usize = spots.len();
    while n > 0
        invariant
            n <= spots@.len(),
            all == spots_view(spots@),
            spot_of(all, address_view(address@), text@) == last_spot(
                all,
                n as int,
                address_view(address@),
                text@,
            ),
        decreases n,
    {
        let spot = &spots[n - 1];
        assert(all[n - 1] == spot@);
        if leads_to(&spot.path, address) && same(spot.text.as_slice(), text) {
            return Some(spot);
        }
        n -= 1;
    }
    None
}

/// The address of an entry of the table under a key whose parts stand between
/// dots.
pub open spec fn entry_address(section: Seq<char>, name: Seq<char>) -> Seq<PlaceView> {
    under(split(section, '.').push(name))
}

/// The address of an entry of the table under a key whose parts stand between
/// dots.
pub fn entry_place(section: &[char], name: &[char]) -> (r: Vec<Place>)
    ensures
        address_view(r@) == entry_address(section@, name@),
{
    let mut keys = split_on(section, '.');
    let key = copy_text(name);
    proof {
        lemma_parts_push(keys@, key);
    }
    keys.push(key);
    address_under(&keys)
}

/// The lines of a document, and the strings that stand there.
#[derive(Debug)]
pub struct Outline {
    pub lines: Vec<Vec<char>>,
    pub spots: Vec<Spot>,
}

impl Outline {
    /// The lines as mathematical values.
    pub open spec fn rows(&self) -> Seq<Seq<char>> {
        parts_view(self.lines@)
    }

    /// The strings as mathematical values.
    pub open spec fn strings(&self) -> Seq<SpotView> {
        spots_view(self.spots@)
    }

    /// The strings stand on the lines.
    pub open spec fn valid(&self) -> bool {
        all_placed(self.rows(), self.strings())
    }

    /// The range of `inner` where it stands `offset` characters into a spot.
    pub fn range(&self, spot: &Spot, offset: usize, inner: &[char]) -> (r: Range)
        requires
            is_placed(self.rows(), spot@),
            occurs_at(spot.text@, inner@, offset as int),
        ensures
            r == range_in(self.rows(), spot@, offset as int, inner@),
    {
        assert(self.rows()[spot.line as int] == self.lines@[spot.line as int]@);
        let line = self.lines[spot.line].as_slice();
        inner_span(line, spot.line, spot.at, spot.text.as_slice(), offset, inner)
    }

    /// The range of `inner` where it stands `offset` characters into the string
    /// that has an address and a text.
    pub fn locate(&self, address: &Vec<Place>, text: &[char], offset: usize, inner: &[char]) -> (r:
        Option<Range>)
        requires
            self.valid(),
            occurs_at(text@, inner@, offset as int),
        ensures
            r == located(
                self.rows(),
                self.strings(),
                address_view(address@),
                text@,
                offset as int,
                inner@,
            ),
    {
        match find_spot(&self.spots, address, text) {
            Some(spot) => Some(self.range(spot, offset, inner)),
            None => None,
        }
    }
}

} // verus!
