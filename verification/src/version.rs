//! Semantic versions: their text, their order and the requirements on them.
use vstd::prelude::*;
use crate::order::{lemma_tag_irreflexive, lemma_tag_total, lemma_tag_transitive, tag_less};
use crate::text::chars::{is_digit, is_letter, push_chars, push_str, string_of};
use crate::text::number::{all_digits, decimal, decimal_of, lemma_decimal};
use crate::text::search::{lemma_split_len, split};

verus! {

/// A semantic version. The tags `pre` and `build` are empty where the version
/// has none.
#[derive(Debug)]
pub struct Version {
    pub major: u64,
    pub minor: u64,
    pub patch: u64,
    pub pre: String,
    pub build: String,
}

/// A semantic version as a mathematical value.
pub struct VersionView {
    pub major: u64,
    pub minor: u64,
    pub patch: u64,
    pub pre: Seq<char>,
    pub build: Seq<char>,
}

impl View for Version {
    type V = VersionView;

    open spec fn view(&self) -> VersionView {
        VersionView {
            major: self.major,
            minor: self.minor,
            patch: self.patch,
            pre: self.pre@,
            build: self.build@,
        }
    }
}

/// A character that may stand in a tag's identifier.
pub open spec fn is_tag_char(c: char) -> bool {
    is_digit(c) || is_letter(c) || c == '-'
}

/// An identifier of a tag: not empty, and made of tag characters.
pub open spec fn is_identifier(s: Seq<char>) -> bool {
    s.len() > 0 && forall|i: int| 0 <= i < s.len() ==> is_tag_char(#[trigger] s[i])
}

/// A number written with a zero too many in front.
pub open spec fn has_leading_zero(s: Seq<char>) -> bool {
    all_digits(s) && s.len() > 1 && s[0] == '0'
}

/// A build tag: empty, or identifiers between dots.
pub open spec fn is_build_tag(s: Seq<char>) -> bool {
    s.len() > 0 ==> forall|i: int|
        0 <= i < split(s, '.').len() ==> is_identifier(#[trigger] split(s, '.')[i])
}

/// A prerelease tag: empty, or identifiers between dots, none of them a number
/// with a leading zero.
pub open spec fn is_pre_tag(s: Seq<char>) -> bool {
    s.len() > 0 ==> forall|i: int|
        0 <= i < split(s, '.').len() ==> is_identifier(#[trigger] split(s, '.')[i])
            && !has_leading_zero(split(s, '.')[i])
}

impl VersionView {
    /// The tags have the form of tags.
    pub open spec fn valid(self) -> bool {
        is_pre_tag(self.pre) && is_build_tag(self.build)
    }

    /// Not a prerelease.
    pub open spec fn is_stable(self) -> bool {
        self.pre.len() == 0
    }

    /// The version without its build tag.
    pub open spec fn without_build(self) -> VersionView {
        VersionView { build: seq![], ..self }
    }

    /// The version's text.
    pub open spec fn display(self) -> Seq<char> {
        decimal(self.major as nat).push('.') + decimal(self.minor as nat).push('.') + decimal(
            self.patch as nat,
        ) + marked('-', self.pre) + marked('+', self.build)
    }
}

/// A tag with its mark in front, or nothing where the tag is empty.
pub open spec fn marked(mark: char, tag: Seq<char>) -> Seq<char> {
    if tag.len() == 0 {
        seq![]
    } else {
        seq![mark] + tag
    }
}

/// The version that a text spells: the one whose text it is.
pub open spec fn version_of(s: Seq<char>) -> Option<VersionView> {
    if exists|v: VersionView| #[trigger] v.valid() && v.display() == s {
        Some(choose|v: VersionView| #[trigger] v.valid() && v.display() == s)
    } else {
        None
    }
}

/// Prerelease tags in order; the empty tag, which marks a release, comes last.
pub open spec fn pre_less(a: Seq<char>, b: Seq<char>) -> bool {
    a.len() > 0 && (b.len() == 0 || tag_less(a, b))
}

/// The order of versions: by their numbers, then by the prerelease tag, then
/// by the build tag.
pub open spec fn precedes(a: VersionView, b: VersionView) -> bool {
    if a.major != b.major {
        a.major < b.major
    } else if a.minor != b.minor {
        a.minor < b.minor
    } else if a.patch != b.patch {
        a.patch < b.patch
    } else if a.pre != b.pre {
        pre_less(a.pre, b.pre)
    } else {
        tag_less(a.build, b.build)
    }
}

/// One version is newer than another. Build tags make no version newer.
pub open spec fn is_newer(v: VersionView, than: VersionView) -> bool {
    precedes(than.without_build(), v.without_build())
}

/// What `semver::VersionReq::parse` decides: whether a text is a version
/// requirement.
pub uninterp spec fn requirement_parses(text: Seq<char>) -> bool;

/// What `semver::VersionReq::matches` decides: whether the requirement that a
/// text spells admits a version.
pub uninterp spec fn requirement_admits(text: Seq<char>, version: VersionView) -> bool;

/// Calls `semver::Version::parse`. It accepts exactly the texts of valid
/// versions, and returns the version whose text it was given.
#[verifier::external_body]
fn parse_version(text: &str) -> (r: Option<Version>)
    ensures
        match r {
            Some(v) => v@.valid() && v@.display() == text@,
            None => forall|v: VersionView| #[trigger] v.valid() ==> v.display() != text@,
        },
{
    match semver::Version::parse(text) {
        Ok(v) => Some(
            Version {
                major: v.major,
                minor: v.minor,
                patch: v.patch,
                pre: v.pre.as_str().to_string(),
                build: v.build.as_str().to_string(),
            },
        ),
        Err(_) => None,
    }
}

/// Calls `<` on `semver::Version`. Its documentation gives the order: the
/// numbers from left to right, a prerelease before its release, and tags by
/// their dot-separated identifiers.
#[verifier::external_body]
fn version_less(a: &Version, b: &Version) -> (r: bool)
    requires
        a@.valid(),
        b@.valid(),
    ensures
        r == precedes(a@, b@),
{
    let (a_pre, b_pre) = (semver::Prerelease::new(&a.pre), semver::Prerelease::new(&b.pre));
    let (a_build, b_build) = (
        semver::BuildMetadata::new(&a.build),
        semver::BuildMetadata::new(&b.build),
    );
    let mut left = semver::Version::new(a.major, a.minor, a.patch);
    let mut right = semver::Version::new(b.major, b.minor, b.patch);
    left.pre = a_pre.unwrap();
    left.build = a_build.unwrap();
    right.pre = b_pre.unwrap();
    right.build = b_build.unwrap();
    left < right
}

/// Calls `semver::VersionReq::parse` and tells whether it succeeded. The
/// grammar of requirements is not stated; its verdict has a name.
#[verifier::external_body]
pub(crate) fn is_requirement(text: &str) -> (r: bool)
    ensures
        r == requirement_parses(text@),
{
    semver::VersionReq::parse(text).is_ok()
}

/// Calls `semver::VersionReq::matches` on the requirement that `text` spells.
/// Which versions a requirement admits is not stated; the verdict has a name.
/// A text that is no requirement admits none.
#[verifier::external_body]
pub(crate) fn admits(text: &str, version: &Version) -> (r: bool)
    requires
        version@.valid(),
    ensures
        r == requirement_admits(text@, version@),
        r ==> requirement_parses(text@),
{
    let mut v = semver::Version::new(version.major, version.minor, version.patch);
    v.pre = semver::Prerelease::new(&version.pre).unwrap();
    v.build = semver::BuildMetadata::new(&version.build).unwrap();
    match semver::VersionReq::parse(text) {
        Ok(requirement) => requirement.matches(&v),
        Err(_) => false,
    }
}

/// A run of characters of one class is found again at the front of a text.
proof fn lemma_run_unique(
    a: Seq<char>,
    x: Seq<char>,
    b: Seq<char>,
    y: Seq<char>,
    f: spec_fn(char) -> bool,
)
    requires
        a + x == b + y,
        forall|i: int| 0 <= i < a.len() ==> f(#[trigger] a[i]),
        forall|i: int| 0 <= i < b.len() ==> f(#[trigger] b[i]),
        x.len() > 0 ==> !f(x[0]),
        y.len() > 0 ==> !f(y[0]),
    ensures
        a == b,
        x == y,
{
    let s = a + x;
    if a.len() < b.len() {
        assert(s[a.len() as int] == x[0]);
        assert(s[a.len() as int] == b[a.len() as int]);
    } else if b.len() < a.len() {
        assert((b + y)[b.len() as int] == y[0]);
        assert(s[b.len() as int] == a[b.len() as int]);
    }
    assert(a == s.take(a.len() as int));
    assert(b == (b + y).take(b.len() as int));
    assert(x == s.skip(a.len() as int));
    assert(y == (b + y).skip(b.len() as int));
}

/// Every character of a text is the separator or stands in a part.
pub proof fn lemma_split_covers(s: Seq<char>, sep: char, k: int)
    requires
        0 <= k < s.len(),
        s[k] != sep,
    ensures
        exists|i: int, j: int|
            0 <= i < split(s, sep).len() && 0 <= j < split(s, sep)[i].len() && split(s, sep)[i][j]
                == s[k],
    decreases s.len(),
{
    let before = split(s.drop_last(), sep);
    let parts = split(s, sep);
    lemma_split_len(s.drop_last(), sep);
    if k == s.len() - 1 {
        let i = parts.len() - 1;
        let j = parts[i].len() - 1;
        assert(parts[i][j] == s[k]);
    } else {
        lemma_split_covers(s.drop_last(), sep, k);
        let (i, j) = choose|i: int, j: int|
            0 <= i < before.len() && 0 <= j < before[i].len() && before[i][j] == s.drop_last()[k];
        assert(parts[i][j] == s[k]);
    }
}

/// A tag holds tag characters and dots alone.
pub proof fn lemma_tag_chars(s: Seq<char>)
    requires
        is_build_tag(s),
    ensures
        forall|k: int| 0 <= k < s.len() ==> is_tag_char(#[trigger] s[k]) || s[k] == '.',
{
    assert forall|k: int| 0 <= k < s.len() implies is_tag_char(#[trigger] s[k]) || s[k] == '.' by {
        if s[k] != '.' {
            lemma_split_covers(s, '.', k);
            let (i, j) = choose|i: int, j: int|
                0 <= i < split(s, '.').len() && 0 <= j < split(s, '.')[i].len() && split(
                    s,
                    '.',
                )[i][j] == s[k];
            assert(is_identifier(split(s, '.')[i]));
        }
    }
}

/// A number is found again at the front of a text.
pub proof fn lemma_number_unique(n: nat, x: Seq<char>, m: nat, y: Seq<char>)
    requires
        decimal(n) + x == decimal(m) + y,
        x.len() > 0 ==> !is_digit(x[0]),
        y.len() > 0 ==> !is_digit(y[0]),
    ensures
        n == m,
        x == y,
{
    lemma_decimal(n);
    lemma_decimal(m);
    lemma_run_unique(decimal(n), x, decimal(m), y, |c: char| is_digit(c));
}

/// The tags of a version's text.
spec fn tail(v: VersionView) -> Seq<char> {
    marked('-', v.pre) + marked('+', v.build)
}

/// The patch number and what follows it.
spec fn from_patch(v: VersionView) -> Seq<char> {
    decimal(v.patch as nat) + tail(v)
}

/// The minor number and what follows it.
spec fn from_minor(v: VersionView) -> Seq<char> {
    decimal(v.minor as nat) + (seq!['.'] + from_patch(v))
}

proof fn lemma_display_shape(v: VersionView)
    ensures
        v.display() == decimal(v.major as nat) + (seq!['.'] + from_minor(v)),
{
}

/// The tags are told by the text that they make.
proof fn lemma_tail_injective(a: VersionView, b: VersionView)
    requires
        a.valid(),
        b.valid(),
        tail(a) == tail(b),
    ensures
        a.pre == b.pre,
        a.build == b.build,
{
    assert(is_build_tag(a.pre));
    assert(is_build_tag(b.pre));
    lemma_tag_chars(a.pre);
    lemma_tag_chars(b.pre);
    lemma_run_unique(
        marked('-', a.pre),
        marked('+', a.build),
        marked('-', b.pre),
        marked('+', b.build),
        |c: char| c != '+',
    );
    assert(a.pre.len() > 0 ==> a.pre == marked('-', a.pre).skip(1));
    assert(b.pre.len() > 0 ==> b.pre == marked('-', b.pre).skip(1));
    assert(a.build.len() > 0 ==> a.build == marked('+', a.build).skip(1));
    assert(b.build.len() > 0 ==> b.build == marked('+', b.build).skip(1));
    assert(a.pre == b.pre);
    assert(a.build == b.build);
}

/// A version is told by its text: no two valid versions share one.
pub proof fn lemma_display_injective(a: VersionView, b: VersionView)
    requires
        a.valid(),
        b.valid(),
        a.display() == b.display(),
    ensures
        a == b,
{
    let dot = seq!['.'];
    lemma_display_shape(a);
    lemma_display_shape(b);
    lemma_number_unique(a.major as nat, dot + from_minor(a), b.major as nat, dot + from_minor(b));
    assert(from_minor(a) == (dot + from_minor(a)).skip(1));
    assert(from_minor(b) == (dot + from_minor(b)).skip(1));
    lemma_number_unique(a.minor as nat, dot + from_patch(a), b.minor as nat, dot + from_patch(b));
    assert(from_patch(a) == (dot + from_patch(a)).skip(1));
    assert(from_patch(b) == (dot + from_patch(b)).skip(1));
    lemma_number_unique(a.patch as nat, tail(a), b.patch as nat, tail(b));
    lemma_tail_injective(a, b);
}

/// Reading a version's text gives the version back.
pub proof fn law_parse_of_display(v: VersionView)
    requires
        v.valid(),
    ensures
        version_of(v.display()) == Some(v),
{
    let w = choose|w: VersionView| #[trigger] w.valid() && w.display() == v.display();
    lemma_display_injective(v, w);
}

/// A text that spells a version is that version's text.
pub proof fn law_display_of_parse(s: Seq<char>)
    requires
        version_of(s) is Some,
    ensures
        version_of(s)->0.valid(),
        version_of(s)->0.display() == s,
{
}

/// No version precedes itself.
pub proof fn law_order_irreflexive(a: VersionView)
    ensures
        !precedes(a, a),
{
    lemma_tag_irreflexive(a.build);
}

/// The order of versions is transitive.
pub proof fn law_order_transitive(a: VersionView, b: VersionView, c: VersionView)
    requires
        precedes(a, b),
        precedes(b, c),
    ensures
        precedes(a, c),
{
    if a.major == c.major && a.minor == c.minor && a.patch == c.patch {
        if a.pre != b.pre && b.pre != c.pre {
            if c.pre.len() > 0 {
                lemma_tag_transitive(a.pre, b.pre, c.pre);
                lemma_tag_irreflexive(a.pre);
            }
        } else if a.pre == b.pre && b.pre == c.pre {
            lemma_tag_transitive(a.build, b.build, c.build);
        }
    }
}

/// Of two different versions one precedes the other.
pub proof fn law_order_total(a: VersionView, b: VersionView)
    requires
        !precedes(a, b),
        !precedes(b, a),
    ensures
        a == b,
{
    if a.pre != b.pre {
        if a.pre.len() == 0 && b.pre.len() == 0 {
            assert(a.pre == b.pre);
        } else {
            lemma_tag_total(a.pre, b.pre);
        }
    } else {
        lemma_tag_total(a.build, b.build);
    }
}

/// A release comes after its prereleases.
pub proof fn law_release_after_prerelease(a: VersionView, b: VersionView)
    requires
        a.major == b.major,
        a.minor == b.minor,
        a.patch == b.patch,
        !a.is_stable(),
        b.is_stable(),
    ensures
        precedes(a, b),
{
}

impl Clone for Version {
    fn clone(&self) -> (r: Self)
        ensures
            r == *self,
    {
        Version {
            major: self.major,
            minor: self.minor,
            patch: self.patch,
            pre: self.pre.clone(),
            build: self.build.clone(),
        }
    }
}

impl Version {
    /// Reads a version.
    pub fn parse(text: &str) -> (r: Option<Version>)
        ensures
            match r {
                Some(v) => version_of(text@) == Some(v@) && v@.valid() && v@.display() == text@,
                None => version_of(text@) is None,
            },
    {
        let r = parse_version(text);
        proof {
            if r is Some {
                law_parse_of_display(r->0@);
            }
        }
        r
    }

    /// The version's text.
    pub fn to_string(&self) -> (r: String)
        ensures
            r@ == self@.display(),
    {
        let mut out = decimal_of(self.major);
        out.push('.');
        let minor = decimal_of(self.minor);
        push_chars(&mut out, minor.as_slice());
        out.push('.');
        let patch = decimal_of(self.patch);
        push_chars(&mut out, patch.as_slice());
        if !self.pre.as_str().is_empty() {
            out.push('-');
            push_str(&mut out, self.pre.as_str());
        }
        if !self.build.as_str().is_empty() {
            out.push('+');
            push_str(&mut out, self.build.as_str());
        }
        assert(out@ == self@.display());
        string_of(out.as_slice())
    }

    /// Whether this version precedes another.
    pub fn precedes(&self, other: &Version) -> (r: bool)
        requires
            self@.valid(),
            other@.valid(),
        ensures
            r == precedes(self@, other@),
    {
        version_less(self, other)
    }

    /// Whether this version is not a prerelease.
    pub fn is_stable(&self) -> (r: bool)
        ensures
            r == self@.is_stable(),
    {
        self.pre.as_str().is_empty()
    }
}

} // verus!
