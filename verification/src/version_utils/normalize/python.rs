//! Python constraints.
use vstd::prelude::*;
use super::{standard, standard_form};
use crate::text::chars::{chars_of, push_chars, push_str, string_of};
use crate::text::search::{after, after_prefix, begins};
use crate::text::trim::{trim, trimmed};

verus! {

/// A Python constraint in standard form: `==` is written `=`, and `~=` is
/// written `~`.
pub open spec fn python_form(constraint: Seq<char>) -> Seq<char> {
    let t = trim(constraint);
    if begins(t, "=="@) {
        "="@ + trim(after(t, "=="@))
    } else if begins(t, "~="@) {
        "~"@ + trim(after(t, "~="@))
    } else {
        standard_form(t)
    }
}

/// Normalises Python's constraint operators.
///
/// `==x` becomes `=x`, and `~=x` becomes `~x`. Everything else falls through to
/// [`standard`].
pub fn python(constraint: &str) -> (r: String)
    ensures
        r@ == python_form(constraint@),
{
    let cs = chars_of(constraint);
    let t = trimmed(cs.as_slice());
    let mut out: Vec<char> = Vec::new();
    if let Some(version) = after_prefix(t, "==") {
        push_str(&mut out, "=");
        push_chars(&mut out, trimmed(version));
        assert(out@ == python_form(constraint@));
        return string_of(out.as_slice());
    }
    if let Some(version) = after_prefix(t, "~=") {
        push_str(&mut out, "~");
        push_chars(&mut out, trimmed(version));
        assert(out@ == python_form(constraint@));
        return string_of(out.as_slice());
    }
    let text = string_of(t);
    standard(text.as_str())
}

} // verus!
