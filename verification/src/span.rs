//! Source positions and literal handles of `proc_macro2`, carried through the
//! token model without being looked into.
use vstd::prelude::*;
use proc_macro2::{Literal, Span};

verus! {

/// `proc_macro2::Span`: a region of source code. Nothing is known of what it holds.
#[verifier::external_type_specification]
#[verifier::external_body]
pub struct ExSpan(proc_macro2::Span);

/// `proc_macro2::Literal`: a literal as the lexer handed it over. Nothing is
/// known of what it holds.
#[verifier::external_type_specification]
#[verifier::external_body]
pub struct ExLiteral(proc_macro2::Literal);

/// A shortcut for `proc_macro2::Span::call_site()`, the span of the current
/// macro invocation. Which span that is depends on where the caller runs, so
/// nothing is claimed of it.
#[verifier::external_body]
pub fn call_site() -> (site: Span) {
    Span::call_site()
}

/// `Clone::clone` of `proc_macro2::Literal`: a literal that is equal to the
/// one copied.
#[verifier::external_body]
pub(crate) fn clone_literal(literal: &Literal) -> (copy: Literal)
    ensures
        copy == *literal,
{
    literal.clone()
}

} // verus!
