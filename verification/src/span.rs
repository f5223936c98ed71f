//! What the error type needs from the spans a parser hands it.

use nom_locate::LocatedSpan;
use vstd::prelude::*;

verus! {

/// A span that knows where it starts in the parser's input. The offset is
/// counted from the start of the whole input, not from another span.
pub trait Position {
    /// The byte offset of the span's first byte from the start of the input.
    spec fn offset(&self) -> nat;

    /// Returns the offset.
    fn position(&self) -> (p: usize)
        ensures
            p as nat == self.offset(),
    ;
}

/// A span that can be read as text.
pub trait AsStr {
    /// The characters the span covers.
    spec fn text(&self) -> Seq<char>;

    /// Returns the text.
    fn as_str(&self) -> (s: &str)
        ensures
            s@ == self.text(),
    ;
}

impl<'a> AsStr for &'a str {
    open spec fn text(&self) -> Seq<char> {
        (**self)@
    }

    #[inline(always)]
    fn as_str(&self) -> (s: &str) {
        self
    }
}

impl AsStr for str {
    open spec fn text(&self) -> Seq<char> {
        self@
    }

    #[inline(always)]
    fn as_str(&self) -> (s: &str) {
        self
    }
}

/// `nom_locate::LocatedSpan`: a piece of the parser's input together with
/// the offset and the line at which it starts. Nothing inside it is read
/// here but through the two functions below.
#[verifier::external_type_specification]
#[verifier::external_body]
#[verifier::reject_recursive_types(T)]
#[verifier::reject_recursive_types(X)]
pub struct ExLocatedSpan<T, X>(LocatedSpan<T, X>);

/// The offset that a `LocatedSpan` over text carries: the distance in bytes
/// of its first byte from the start of the parser's input.
pub uninterp spec fn located_offset(span: LocatedSpan<&str>) -> nat;

/// The text that a `LocatedSpan` over text covers: its fragment.
pub uninterp spec fn located_text(span: LocatedSpan<&str>) -> Seq<char>;

/// `LocatedSpan::location_offset`: returns the offset that the span carries,
/// and changes nothing.
#[verifier::external_body]
fn span_offset(span: &LocatedSpan<&str>) -> (p: usize)
    ensures
        p as nat == located_offset(*span),
{
    span.location_offset()
}

/// `LocatedSpan::fragment`: returns the text that the span covers, and
/// changes nothing.
#[verifier::external_body]
fn span_fragment<'a>(span: &LocatedSpan<&'a str>) -> (s: &'a str)
    ensures
        s@ == located_text(*span),
{
    span.fragment()
}

impl<'a> Position for LocatedSpan<&'a str> {
    open spec fn offset(&self) -> nat {
        located_offset(*self)
    }

    fn position(&self) -> (p: usize) {
        span_offset(self)
    }
}

impl<'a> AsStr for LocatedSpan<&'a str> {
    open spec fn text(&self) -> Seq<char> {
        located_text(*self)
    }

    #[inline]
    fn as_str(&self) -> (s: &str) {
        span_fragment(self)
    }
}

} // verus!
