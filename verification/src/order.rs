//! The order of version tags: dot-separated identifiers, compared one by one.
use vstd::prelude::*;
use crate::text::chars::is_digit;
use crate::text::number::{all_digits, value};
use crate::text::search::{lemma_split_len, split};

verus! {

/// Character by character: the first difference decides, and a proper prefix
/// comes first.
pub open spec fn text_less(a: Seq<char>, b: Seq<char>) -> bool
    decreases a.len(),
{
    if b.len() == 0 {
        false
    } else if a.len() == 0 {
        true
    } else if a[0] != b[0] {
        a[0] < b[0]
    } else {
        text_less(a.skip(1), b.skip(1))
    }
}

/// Identifiers of digits come first, by their number and then by their
/// length; the others follow in text order.
pub open spec fn identifier_less(a: Seq<char>, b: Seq<char>) -> bool {
    if all_digits(a) && all_digits(b) {
        value(a) < value(b) || (value(a) == value(b) && a.len() < b.len())
    } else if all_digits(a) || all_digits(b) {
        all_digits(a)
    } else {
        text_less(a, b)
    }
}

/// Lists of identifiers: the first difference decides, and a proper prefix
/// comes first.
pub open spec fn identifiers_less(a: Seq<Seq<char>>, b: Seq<Seq<char>>) -> bool
    decreases a.len(),
{
    if b.len() == 0 {
        false
    } else if a.len() == 0 {
        true
    } else if a[0] != b[0] {
        identifier_less(a[0], b[0])
    } else {
        identifiers_less(a.skip(1), b.skip(1))
    }
}

/// Tags by their dot-separated identifiers.
pub open spec fn tag_less(a: Seq<char>, b: Seq<char>) -> bool {
    identifiers_less(split(a, '.'), split(b, '.'))
}

pub proof fn lemma_text_irreflexive(a: Seq<char>)
    ensures
        !text_less(a, a),
    decreases a.len(),
{
    if a.len() > 0 {
        lemma_text_irreflexive(a.skip(1));
    }
}

pub proof fn lemma_text_transitive(a: Seq<char>, b: Seq<char>, c: Seq<char>)
    requires
        text_less(a, b),
        text_less(b, c),
    ensures
        text_less(a, c),
    decreases a.len(),
{
    if a.len() > 0 && a[0] == b[0] && b[0] == c[0] {
        lemma_text_transitive(a.skip(1), b.skip(1), c.skip(1));
    }
}

pub proof fn lemma_text_total(a: Seq<char>, b: Seq<char>)
    requires
        !text_less(a, b),
        !text_less(b, a),
    ensures
        a == b,
    decreases a.len(),
{
    if a.len() > 0 {
        lemma_text_total(a.skip(1), b.skip(1));
        assert(a == seq![a[0]] + a.skip(1));
        assert(b == seq![b[0]] + b.skip(1));
    } else {
        assert(a == b);
    }
}

/// Runs of digits of one length that spell one number are the same.
pub proof fn lemma_digits_same(a: Seq<char>, b: Seq<char>)
    requires
        all_digits(a),
        all_digits(b),
        value(a) == value(b),
        a.len() == b.len(),
    ensures
        a == b,
    decreases a.len(),
{
    if a.len() > 0 {
        let i = a.len() - 1;
        assert(is_digit(a[i]));
        assert(is_digit(b[i]));
        assert forall|j: int| 0 <= j < i implies is_digit(
            #[trigger] a.drop_last()[j],
        ) by {
            assert(a.drop_last()[j] == a[j]);
        }
        assert forall|j: int| 0 <= j < i implies is_digit(
            #[trigger] b.drop_last()[j],
        ) by {
            assert(b.drop_last()[j] == b[j]);
        }
        lemma_digits_same(a.drop_last(), b.drop_last());
        assert(a == a.drop_last().push(a.last()));
        assert(b == b.drop_last().push(b.last()));
    } else {
        assert(a == b);
    }
}

pub proof fn lemma_identifier_irreflexive(a: Seq<char>)
    ensures
        !identifier_less(a, a),
{
    lemma_text_irreflexive(a);
}

pub proof fn lemma_identifier_transitive(a: Seq<char>, b: Seq<char>, c: Seq<char>)
    requires
        identifier_less(a, b),
        identifier_less(b, c),
    ensures
        identifier_less(a, c),
{
    if !all_digits(a) && !all_digits(b) && !all_digits(c) {
        lemma_text_transitive(a, b, c);
    }
}

pub proof fn lemma_identifier_total(a: Seq<char>, b: Seq<char>)
    requires
        !identifier_less(a, b),
        !identifier_less(b, a),
    ensures
        a == b,
{
    if all_digits(a) && all_digits(b) {
        lemma_digits_same(a, b);
    } else {
        lemma_text_total(a, b);
    }
}

pub proof fn lemma_identifiers_irreflexive(a: Seq<Seq<char>>)
    ensures
        !identifiers_less(a, a),
    decreases a.len(),
{
    if a.len() > 0 {
        lemma_identifiers_irreflexive(a.skip(1));
    }
}

pub proof fn lemma_identifiers_transitive(
    a: Seq<Seq<char>>,
    b: Seq<Seq<char>>,
    c: Seq<Seq<char>>,
)
    requires
        identifiers_less(a, b),
        identifiers_less(b, c),
    ensures
        identifiers_less(a, c),
    decreases a.len(),
{
    if a.len() > 0 {
        if a[0] == b[0] && b[0] == c[0] {
            lemma_identifiers_transitive(a.skip(1), b.skip(1), c.skip(1));
        } else if a[0] != b[0] && b[0] != c[0] {
            lemma_identifier_transitive(a[0], b[0], c[0]);
            lemma_identifier_irreflexive(a[0]);
        }
    }
}

pub proof fn lemma_identifiers_total(a: Seq<Seq<char>>, b: Seq<Seq<char>>)
    requires
        !identifiers_less(a, b),
        !identifiers_less(b, a),
    ensures
        a == b,
    decreases a.len(),
{
    if a.len() > 0 {
        if a[0] != b[0] {
            lemma_identifier_total(a[0], b[0]);
        }
        lemma_identifiers_total(a.skip(1), b.skip(1));
        assert(a == seq![a[0]] + a.skip(1));
        assert(b == seq![b[0]] + b.skip(1));
    } else {
        assert(a == b);
    }
}

/// The parts tell the text.
pub proof fn lemma_split_injective(a: Seq<char>, b: Seq<char>, sep: char)
    requires
        split(a, sep) == split(b, sep),
    ensures
        a == b,
    decreases a.len() + b.len(),
{
    lemma_split_len(a, sep);
    lemma_split_len(b, sep);
    let s = split(a, sep);
    if a.len() == 0 && b.len() == 0 {
        assert(a == b);
    } else if a.len() == 0 {
        lemma_split_len(b.drop_last(), sep);
        assert(s.last().len() == 0 && s.len() == 1);
        assert(b.last() != sep ==> s.last() == split(b.drop_last(), sep).last().push(b.last()));
    } else if b.len() == 0 {
        lemma_split_len(a.drop_last(), sep);
        assert(s.last().len() == 0 && s.len() == 1);
        assert(a.last() != sep ==> s.last() == split(a.drop_last(), sep).last().push(a.last()));
    } else {
        lemma_split_len(a.drop_last(), sep);
        lemma_split_len(b.drop_last(), sep);
        let pa = split(a.drop_last(), sep);
        let pb = split(b.drop_last(), sep);
        if a.last() == sep && b.last() == sep {
            assert(pa == s.drop_last());
            assert(pb == s.drop_last());
        } else if a.last() != sep && b.last() != sep {
            assert(s.last() == pa.last().push(a.last()));
            assert(s.last() == pb.last().push(b.last()));
            assert(pa.last() == s.last().drop_last());
            assert(pb.last() == s.last().drop_last());
            assert(pa == s.drop_last().push(pa.last()));
            assert(pb == s.drop_last().push(pb.last()));
            assert(a.last() == s.last().last());
            assert(b.last() == s.last().last());
        } else if a.last() == sep {
            assert(s.last().len() == 0);
            assert(s.last() == pb.last().push(b.last()));
        } else {
            assert(s.last().len() == 0);
            assert(s.last() == pa.last().push(a.last()));
        }
        lemma_split_injective(a.drop_last(), b.drop_last(), sep);
        assert(a == a.drop_last().push(a.last()));
        assert(b == b.drop_last().push(b.last()));
    }
}

/// No tag comes before the empty one.
pub proof fn lemma_empty_tag_first(a: Seq<char>, b: Seq<char>)
    requires
        b.len() == 0,
    ensures
        !tag_less(a, b),
{
    let s = split(a, '.');
    let t = split(b, '.');
    lemma_split_len(a, '.');
    assert(t == seq![Seq::<char>::empty()]);
    assert(t.skip(1).len() == 0);
    assert(all_digits(t[0]));
    assert(value(t[0]) == 0);
    assert(!identifiers_less(s.skip(1), t.skip(1)));
}

/// Tags are totally ordered: none precedes itself.
pub proof fn lemma_tag_irreflexive(a: Seq<char>)
    ensures
        !tag_less(a, a),
{
    lemma_identifiers_irreflexive(split(a, '.'));
}

/// Tags are totally ordered: the order is transitive.
pub proof fn lemma_tag_transitive(a: Seq<char>, b: Seq<char>, c: Seq<char>)
    requires
        tag_less(a, b),
        tag_less(b, c),
    ensures
        tag_less(a, c),
{
    lemma_identifiers_transitive(split(a, '.'), split(b, '.'), split(c, '.'));
}

/// Tags are totally ordered: two different ones are in order one way.
pub proof fn lemma_tag_total(a: Seq<char>, b: Seq<char>)
    requires
        !tag_less(a, b),
        !tag_less(b, a),
    ensures
        a == b,
{
    lemma_identifiers_total(split(a, '.'), split(b, '.'));
    lemma_split_injective(a, b, '.');
}

} // verus!
