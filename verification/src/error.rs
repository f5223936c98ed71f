//! The error type: a chain of failures, innermost first, that keeps the
//! deepest chain whenever two alternatives are compared.

use crate::span::Position;
use vstd::prelude::*;

verus! {

/// Why a parser failed at a span.
#[derive(Clone, Debug, PartialEq)]
pub enum GreedyErrorKind<E> {
    /// A label that a grammar rule attached while the failure travelled outwards.
    Context(&'static str),
    /// The character that was expected and not found.
    Char(char),
    /// The parsing engine's own classification of the failure.
    Nom(E),
}

/// The failures gathered along one parse attempt. The first entry is the
/// innermost failure; each later entry is context added further out.
#[derive(Clone, Debug, PartialEq)]
pub struct GreedyError<I, E> {
    /// The affected spans, each with the reason recorded for it.
    pub errors: Vec<(I, GreedyErrorKind<E>)>,
}

impl<I, E> View for GreedyError<I, E> {
    type V = Seq<(I, GreedyErrorKind<E>)>;

    open spec fn view(&self) -> Self::V {
        self.errors@
    }
}

/// The offset of the innermost failure of a chain, if it has one.
pub open spec fn deepest<I: Position, E>(frames: Seq<(I, GreedyErrorKind<E>)>) -> Option<nat> {
    if frames.len() > 0 {
        Some(frames[0].0.offset())
    } else {
        None
    }
}

/// How far into the input a chain got: the offset of its innermost failure,
/// and 0 for a chain without entries.
pub open spec fn depth<I: Position, E>(frames: Seq<(I, GreedyErrorKind<E>)>) -> nat {
    match deepest(frames) {
        Some(offset) => offset,
        None => 0,
    }
}

impl<I: Position, E> GreedyError<I, E> {
    /// A chain made by the operations below always holds at least one entry.
    pub open spec fn well_formed(&self) -> bool {
        self@.len() > 0
    }

    /// The chain that wins when `self` and `other` are the failures of two
    /// alternatives: the one whose innermost failure lies deeper, `self` on a tie.
    pub open spec fn preferred(self, other: Self) -> Self {
        if depth(other@) > depth(self@) {
            other
        } else {
            self
        }
    }

    /// The chain for a failure that the engine classified as `kind`.
    pub fn from_error_kind(input: I, kind: E) -> (made: Self)
        ensures
            made@ == seq![(input, GreedyErrorKind::Nom(kind))],
            made.well_formed(),
    {
        GreedyError { errors: vec![(input, GreedyErrorKind::Nom(kind))] }
    }

    /// Adds a failure that the engine classified as `kind` as the outermost
    /// entry of `other`. The entries that `other` holds stay as they are.
    pub fn append(input: I, kind: E, other: Self) -> (longer: Self)
        ensures
            longer@ == other@.push((input, GreedyErrorKind::Nom(kind))),
            longer.well_formed(),
            other.well_formed() ==> deepest(longer@) == deepest(other@),
    {
        let mut other = other;
        other.errors.push((input, GreedyErrorKind::Nom(kind)));
        other
    }

    /// The chain for a failure to find the character `c`.
    pub fn from_char(input: I, c: char) -> (made: Self)
        ensures
            made@ == seq![(input, GreedyErrorKind::<E>::Char(c))],
            made.well_formed(),
    {
        GreedyError { errors: vec![(input, GreedyErrorKind::Char(c))] }
    }

    /// Adds the label of a grammar rule as the outermost entry of `other`.
    /// The entries that `other` holds stay as they are.
    pub fn add_context(input: I, ctx: &'static str, other: Self) -> (longer: Self)
        ensures
            longer@ == other@.push((input, GreedyErrorKind::<E>::Context(ctx))),
            longer.well_formed(),
            other.well_formed() ==> deepest(longer@) == deepest(other@),
    {
        let mut other = other;
        other.errors.push((input, GreedyErrorKind::Context(ctx)));
        other
    }

    /// Keeps whichever of two failed alternatives got further into the input.
    /// This is a heuristic: the branch that consumed more before failing is
    /// taken to be the one that was meant. On equal depth `self` is kept.
    pub fn or(self, other: Self) -> (kept: Self)
        ensures
            kept == self.preferred(other),
            self.well_formed() && other.well_formed() ==> kept.well_formed(),
    {
        let pos_self: usize = if self.errors.len() > 0 {
            self.errors[0].0.position()
        } else {
            0
        };
        let pos_other: usize = if other.errors.len() > 0 {
            other.errors[0].0.position()
        } else {
            0
        };
        if pos_other > pos_self {
            other
        } else {
            self
        }
    }
}

/// The offset of the deepest failure: that of the chain's first entry.
pub fn error_position<T: Position, E>(e: &GreedyError<T, E>) -> (found: Option<usize>)
    ensures
        match found {
            Some(p) => deepest(e@) == Some(p as nat),
            None => deepest(e@).is_none(),
        },
{
    if e.errors.len() > 0 {
        Some(e.errors[0].0.position())
    } else {
        None
    }
}

/// A chain after the entries of `more` were added to it one by one, each as
/// the outermost.
pub open spec fn after_appends<I, E>(
    frames: Seq<(I, GreedyErrorKind<E>)>,
    more: Seq<(I, GreedyErrorKind<E>)>,
) -> Seq<(I, GreedyErrorKind<E>)>
    decreases more.len(),
{
    if more.len() == 0 {
        frames
    } else {
        after_appends(frames, more.drop_last()).push(more.last())
    }
}

/// The deepest failure wins. Of two chains that each hold a failure, the
/// alternation keeps the one whose innermost failure lies deeper, whichever
/// side it stands on; where both lie equally deep it keeps the left one, so a
/// chain compared with itself stays.
pub proof fn lemma_deepest_wins<I: Position, E>(a: GreedyError<I, E>, b: GreedyError<I, E>)
    requires
        a.well_formed(),
        b.well_formed(),
    ensures
        a@[0].0.offset() > b@[0].0.offset() ==> a.preferred(b) == a && b.preferred(a) == a,
        a@[0].0.offset() < b@[0].0.offset() ==> a.preferred(b) == b && b.preferred(a) == b,
        a@[0].0.offset() == b@[0].0.offset() ==> a.preferred(b) == a && b.preferred(a) == b,
        a.preferred(a) == a,
{
}

/// Adding an entry keeps what was there: the chain is as long as before and
/// one more, every earlier entry stands where it stood, and the new one is
/// last. The deepest failure of a chain that held an entry is the one it was.
pub proof fn lemma_append_keeps_prefix<I: Position, E>(
    frames: Seq<(I, GreedyErrorKind<E>)>,
    frame: (I, GreedyErrorKind<E>),
)
    ensures
        frames.push(frame).len() == frames.len() + 1,
        frames.push(frame).take(frames.len() as int) == frames,
        frames.push(frame).last() == frame,
        frames.len() > 0 ==> deepest(frames.push(frame)) == deepest(frames),
{
    assert(frames.push(frame).take(frames.len() as int) =~= frames);
}

/// However many entries are added to a chain that holds one, they come after
/// those it held, and its deepest failure stays that of its first entry.
pub proof fn lemma_position_survives_appends<I: Position, E>(
    frames: Seq<(I, GreedyErrorKind<E>)>,
    more: Seq<(I, GreedyErrorKind<E>)>,
)
    requires
        frames.len() > 0,
    ensures
        after_appends(frames, more) == frames + more,
        deepest(after_appends(frames, more)) == Some(frames[0].0.offset()),
    decreases more.len(),
{
    if more.len() == 0 {
        assert(frames + more =~= frames);
    } else {
        lemma_position_survives_appends(frames, more.drop_last());
        assert((frames + more.drop_last()).push(more.last()) =~= frames + more);
    }
}

} // verus!
