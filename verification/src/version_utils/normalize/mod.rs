//! Normalisers: from an ecosystem's constraint syntax to a version
//! requirement.
pub mod deno;
pub mod python;
pub mod ruby;

pub use deno::deno;
pub use python::python;
pub use ruby::ruby;

use vstd::prelude::*;
use crate::text::chars::{chars_of, digit, is_digit, push_chars, push_str, string_of};
use crate::text::trim::{lemma_trim_keeps, lemma_trim_trimmed, trim, trimmed};
use crate::version::{is_requirement, requirement_parses};

verus! {

/// A constraint in standard form: white space off, and a caret in front of a
/// bare version that is no requirement by itself.
pub open spec fn standard_form(constraint: Seq<char>) -> Seq<char> {
    let t = trim(constraint);
    if t.len() > 0 && is_digit(t[0]) && !requirement_parses(t) {
        "^"@ + t
    } else {
        t
    }
}

/// The standard form of a constraint whose white space is off, given whether
/// it is a requirement.
pub fn with_caret(trimmed: &[char], parses: bool) -> (r: String)
    ensures
        r@ == (if trimmed@.len() > 0 && is_digit(trimmed@[0]) && !parses {
            "^"@ + trimmed@
        } else {
            trimmed@
        }),
{
    let mut out: Vec<char> = Vec::new();
    if trimmed.len() > 0 && digit(trimmed[0]) && !parses {
        push_str(&mut out, "^");
    }
    push_chars(&mut out, trimmed);
    assert(out@ == (if trimmed@.len() > 0 && is_digit(trimmed@[0]) && !parses {
        "^"@ + trimmed@
    } else {
        trimmed@
    }));
    string_of(out.as_slice())
}

/// Standard normalisation: handles bare version strings and passes everything
/// else through unchanged.
///
/// A bare version that is a requirement is returned as it is; one that is not
/// gets a `^` in front.
///
/// Used by npm, Cargo and Composer.
pub fn standard(constraint: &str) -> (r: String)
    ensures
        r@ == standard_form(constraint@),
{
    let cs = chars_of(constraint);
    let t = trimmed(cs.as_slice());
    let text = string_of(t);
    with_caret(t, is_requirement(text.as_str()))
}

/// Normalising twice is normalising once.
pub proof fn law_standard_idempotent(constraint: Seq<char>)
    ensures
        standard_form(standard_form(constraint)) == standard_form(constraint),
{
    let t = trim(constraint);
    lemma_trim_trimmed(constraint);
    if standard_form(constraint) != t {
        reveal_strlit("^");
        lemma_trim_keeps("^"@ + t);
    } else {
        lemma_trim_keeps(t);
    }
}

} // verus!
