//! Ruby constraints.
use vstd::prelude::*;
use super::{standard, standard_form};
use crate::text::chars::{chars_of, push_chars, push_str, string_of};
use crate::text::number::{decimal, decimal_of, number, number_of};
use crate::text::search::{after, after_prefix, begins, split, split_on};
use crate::text::trim::{trim, trimmed};

verus! {

/// The number after `n`; the greatest 64-bit number is followed by zero.
pub open spec fn next_number(n: u64) -> nat {
    if n == u64::MAX {
        0
    } else {
        (n + 1) as nat
    }
}

/// What the version of a pessimistic constraint requires.
pub open spec fn pessimistic_form(version: Seq<char>) -> Seq<char> {
    let parts = split(version, '.');
    if parts.len() <= 2 && number(parts[0]) is Some {
        let major = number(parts[0])->0;
        let minor = if parts.len() == 2 {
            parts[1]
        } else {
            "0"@
        };
        ">="@ + decimal(major as nat) + "."@ + minor + ".0, <"@ + decimal(next_number(major))
            + ".0.0"@
    } else {
        "~"@ + version
    }
}

/// A Ruby constraint in standard form.
pub open spec fn ruby_form(constraint: Seq<char>) -> Seq<char> {
    let t = trim(constraint);
    if begins(t, "~>"@) {
        pessimistic_form(trim(after(t, "~>"@)))
    } else {
        standard_form(t)
    }
}

/// Normalises the pessimistic constraint syntax (`~>`).
///
/// `~> 7` becomes `>=7.0.0, <8.0.0`, `~> 7.1` becomes `>=7.1.0, <8.0.0`, and
/// `~> 7.1.0` becomes `~7.1.0`. Everything else falls through to [`standard`].
pub fn ruby(constraint: &str) -> (r: String)
    ensures
        r@ == ruby_form(constraint@),
{
    let cs = chars_of(constraint);
    let t = trimmed(cs.as_slice());
    if let Some(rest) = after_prefix(t, "~>") {
        let version = trimmed(rest);
        let parts = split_on(version, '.');
        let ghost split_parts = split(version@, '.');
        assert(parts@.len() == split_parts.len());
        assert(parts@[0]@ == split_parts[0]);
        let mut out: Vec<char> = Vec::new();
        if parts.len() <= 2 {
            if let Some(major) = number_of(parts[0].as_slice()) {
                let first = decimal_of(major);
                let next = decimal_of(major.wrapping_add(1));
                push_str(&mut out, ">=");
                push_chars(&mut out, first.as_slice());
                push_str(&mut out, ".");
                if parts.len() == 2 {
                    assert(parts@[1]@ == split_parts[1]);
                    push_chars(&mut out, parts[1].as_slice());
                } else {
                    push_str(&mut out, "0");
                }
                push_str(&mut out, ".0, <");
                push_chars(&mut out, next.as_slice());
                push_str(&mut out, ".0.0");
                assert(out@ == pessimistic_form(version@));
                return string_of(out.as_slice());
            }
        }
        push_str(&mut out, "~");
        push_chars(&mut out, version);
        assert(out@ == pessimistic_form(version@));
        return string_of(out.as_slice());
    }
    let text = string_of(t);
    standard(text.as_str())
}

} // verus!
