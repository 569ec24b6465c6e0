//! Deno constraints.
use vstd::prelude::*;
use super::{law_standard_idempotent, standard, standard_form};
use crate::text::chars::{chars_of, string_of};
use crate::text::trim::{lemma_trim_keeps, lemma_trim_trimmed, trim, trimmed};
use crate::version_utils::{has_v_prefix, v_removed, without_v};

verus! {

/// A Deno constraint in standard form: the `v` of a version pin comes off.
pub open spec fn deno_form(constraint: Seq<char>) -> Seq<char> {
    standard_form(without_v(trim(constraint)))
}

/// Normalising twice is normalising once.
pub proof fn law_deno_idempotent(constraint: Seq<char>)
    ensures
        deno_form(deno_form(constraint)) == deno_form(constraint),
{
    let t = trim(constraint);
    let s = without_v(t);
    let r = deno_form(constraint);
    lemma_trim_trimmed(constraint);
    if has_v_prefix(t) {
        assert(s.last() == t.last());
    }
    lemma_trim_keeps(s);
    law_standard_idempotent(s);
    lemma_trim_trimmed(s);
    if r != s {
        reveal_strlit("^");
        assert(r == "^"@ + s);
        assert(r.last() == s.last());
    }
    lemma_trim_keeps(r);
    assert(without_v(r) == r);
}

/// Normalises Deno's bare `v`-prefixed version pins: `v12.6.1` gives `12.6.1`.
///
/// The `v` comes from deno.land/x specifier URLs. Everything else falls
/// through to [`standard`].
pub fn deno(constraint: &str) -> (r: String)
    ensures
        r@ == deno_form(constraint@),
{
    let cs = chars_of(constraint);
    let version = string_of(v_removed(trimmed(cs.as_slice())));
    standard(version.as_str())
}

} // verus!
