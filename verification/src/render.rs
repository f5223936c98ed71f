//! Turns a chain of failures into a trace: one block of text per failure,
//! innermost first, each showing the line it happened on and a caret under
//! the column.

use std::fmt::Debug;
use vstd::prelude::*;
use vstd::string::StringExecFns;

use crate::error::{GreedyError, GreedyErrorKind};
use crate::lines::{lines_of, split_lines};
use crate::place::{locate, locate_offset};
use crate::span::{AsStr, Position};
use crate::text::{decimal, push_decimal, push_spaces, spaces};

verus! {

/// Why a failure happened, with every part already text.
pub enum Reason {
    /// The label of the grammar rule that was being tried.
    Context(Seq<char>),
    /// The character that was expected.
    Char(char),
    /// The parsing engine's classification, as it prints.
    Kind(Seq<char>),
}

/// What a trace shows of one failure.
pub struct FrameView {
    /// Where the failing span starts, in bytes from the start of the input.
    pub offset: nat,
    /// The first character of the failing span, if it has one.
    pub found: Option<char>,
    /// Why the parser failed there.
    pub reason: Reason,
}

/// One failure in plain values: what the renderer reads of a span and its
/// reason, with the engine's classification already printed.
pub struct Frame {
    /// Where the failing span starts, in bytes from the start of the input.
    pub offset: usize,
    /// The first character of the failing span, if it has one.
    pub found: Option<char>,
    /// Why the parser failed there.
    pub reason: GreedyErrorKind<String>,
}

impl<E> GreedyErrorKind<E> {
    /// The reason as the trace shows it, where `tag` is how the engine's
    /// classification prints.
    pub open spec fn shown_as(self, tag: Seq<char>) -> Reason {
        match self {
            GreedyErrorKind::Context(label) => Reason::Context(label@),
            GreedyErrorKind::Char(c) => Reason::Char(c),
            GreedyErrorKind::Nom(_) => Reason::Kind(tag),
        }
    }
}

impl View for GreedyErrorKind<String> {
    type V = Reason;

    open spec fn view(&self) -> Reason {
        match *self {
            GreedyErrorKind::Context(label) => Reason::Context(label@),
            GreedyErrorKind::Char(c) => Reason::Char(c),
            GreedyErrorKind::Nom(tag) => Reason::Kind(tag@),
        }
    }
}

impl View for Frame {
    type V = FrameView;

    open spec fn view(&self) -> FrameView {
        FrameView {
            offset: self.offset as nat,
            found: self.found,
            reason: self.reason@,
        }
    }
}

/// The first character of a text, if it has one.
pub open spec fn first_char(text: Seq<char>) -> Option<char> {
    if text.len() > 0 {
        Some(text[0])
    } else {
        None
    }
}

/// What a reason says: which character was expected, or within what the
/// parser failed.
pub open spec fn message(reason: Reason) -> Seq<char> {
    match reason {
        Reason::Context(label) => "in "@ + label,
        Reason::Char(c) => "expected '"@ + seq![c] + "'"@,
        Reason::Kind(tag) => "in "@ + tag,
    }
}

/// What was found where a character was expected.
pub open spec fn found_text(found: Option<char>) -> Seq<char> {
    match found {
        Some(c) => seq![c],
        None => "empty"@,
    }
}

/// The block for failure number `index` when the input has no lines: the
/// reason alone, with neither line nor column.
pub open spec fn bare_block(index: nat, reason: Reason) -> Seq<char> {
    decimal(index) + ": "@ + message(reason) + ", got empty input\n\n"@
}

/// The line that a block quotes, with the caret under column `column`.
pub open spec fn marked_line(line: Seq<char>, column: nat) -> Seq<char> {
    line + "\n"@ + spaces(column) + "^\n"@
}

/// The block for failure number `index` on an input with lines: a header
/// with the line number, the line itself, a caret under the failing column,
/// and for an expected character what stood there instead. A blank line
/// closes the block.
pub open spec fn located_block(index: nat, lines: Seq<Seq<char>>, frame: FrameView) -> Seq<
    char,
> {
    let (line, column) = locate(lines, frame.offset);
    match frame.reason {
        Reason::Char(c) => decimal(index) + ": at line "@ + decimal(line) + ":\n"@ + marked_line(
            lines[line as int],
            column,
        ) + message(frame.reason) + ", found "@ + found_text(frame.found) + "\n\n"@,
        _ => decimal(index) + ": at line "@ + decimal(line) + ", "@ + message(frame.reason)
            + ":\n"@ + marked_line(lines[line as int], column) + "\n"@,
    }
}

/// The block for failure number `index`.
pub open spec fn block(index: nat, lines: Seq<Seq<char>>, frame: FrameView) -> Seq<char> {
    if lines.len() == 0 {
        bare_block(index, frame.reason)
    } else {
        located_block(index, lines, frame)
    }
}

/// The blocks of the first `n` failures, one after the other.
pub open spec fn blocks(lines: Seq<Seq<char>>, frames: Seq<FrameView>, n: nat) -> Seq<char>
    decreases n,
{
    if n == 0 {
        Seq::empty()
    } else {
        blocks(lines, frames, (n - 1) as nat) + block((n - 1) as nat, lines, frames[n - 1])
    }
}

/// The trace of `frames` against `input`: the block of every failure, in the
/// order of the chain. Nothing is reordered and nothing is left out.
pub open spec fn trace_text(input: Seq<char>, frames: Seq<FrameView>) -> Seq<char> {
    blocks(lines_of(input), frames, frames.len())
}

/// What the trace shows of a chain, where `tags[i]` is how the engine's
/// classification in entry `i` prints.
pub open spec fn shown<I: AsStr + Position, E>(
    frames: Seq<(I, GreedyErrorKind<E>)>,
    tags: Seq<Seq<char>>,
) -> Seq<FrameView> {
    Seq::new(
        frames.len(),
        |i: int|
            FrameView {
                offset: frames[i].0.offset(),
                found: first_char(frames[i].0.text()),
                reason: frames[i].1.shown_as(tags[i]),
            },
    )
}

/// The views of a list of frames.
pub open spec fn views(frames: Seq<Frame>) -> Seq<FrameView> {
    frames.map_values(|frame: Frame| frame@)
}

/// On an input without lines no block looks for a line or a column: each is
/// the reason alone on a line of its own, followed by a blank line, so the
/// trace is the same whatever the spans are.
pub proof fn lemma_empty_input_degrades(frames: Seq<FrameView>, others: Seq<FrameView>)
    requires
        frames.len() == others.len(),
        forall|i: int| 0 <= i < frames.len() ==> frames[i].reason == others[i].reason,
    ensures
        lines_of(Seq::empty()).len() == 0,
        forall|i: nat, frame: FrameView| #[trigger]
            block(i, lines_of(Seq::empty()), frame) == decimal(i) + ": "@ + message(frame.reason)
                + ", got empty input\n\n"@,
        trace_text(Seq::empty(), frames) == trace_text(Seq::empty(), others),
{
    lemma_bare_blocks(frames, others, frames.len());
}

proof fn lemma_bare_blocks(frames: Seq<FrameView>, others: Seq<FrameView>, n: nat)
    requires
        n <= frames.len() == others.len(),
        forall|i: int| 0 <= i < frames.len() ==> frames[i].reason == others[i].reason,
    ensures
        blocks(Seq::empty(), frames, n) == blocks(Seq::empty(), others, n),
    decreases n,
{
    if n > 0 {
        lemma_bare_blocks(frames, others, (n - 1) as nat);
    }
}

/// A longer chain has a longer trace: the trace of a chain with one more
/// entry is the trace of the chain as it was, followed by the block of that
/// entry. No earlier block changes, and none moves.
pub proof fn lemma_trace_grows_by_a_block(
    input: Seq<char>,
    frames: Seq<FrameView>,
    frame: FrameView,
)
    ensures
        trace_text(input, frames.push(frame)) == trace_text(input, frames) + block(
            frames.len(),
            lines_of(input),
            frame,
        ),
{
    lemma_blocks_of_prefix(lines_of(input), frames, frame, frames.len());
}

proof fn lemma_blocks_of_prefix(
    lines: Seq<Seq<char>>,
    frames: Seq<FrameView>,
    frame: FrameView,
    n: nat,
)
    requires
        n <= frames.len(),
    ensures
        blocks(lines, frames.push(frame), n) == blocks(lines, frames, n),
    decreases n,
{
    if n > 0 {
        lemma_blocks_of_prefix(lines, frames, frame, (n - 1) as nat);
    }
}

fn push_message(out: &mut String, reason: &GreedyErrorKind<String>)
    ensures
        final(out)@ == old(out)@ + message(reason@),
{
    match reason {
        GreedyErrorKind::Context(label) => {
            out.append("in ");
            out.append(label);
            assert(out@ =~= old(out)@ + ("in "@ + label@));
        },
        GreedyErrorKind::Char(c) => {
            out.append("expected '");
            out.push(*c);
            out.append("'");
            assert(out@ =~= old(out)@ + ("expected '"@ + seq![*c] + "'"@));
        },
        GreedyErrorKind::Nom(tag) => {
            out.append("in ");
            out.append(tag.as_str());
            assert(out@ =~= old(out)@ + ("in "@ + tag@));
        },
    }
}

fn push_marked_line(out: &mut String, line: &String, column: usize)
    ensures
        final(out)@ == old(out)@ + marked_line(line@, column as nat),
{
    out.append(line.as_str());
    out.append("\n");
    push_spaces(out, column);
    out.append("^\n");
    assert(out@ =~= old(out)@ + (line@ + "\n"@ + spaces(column as nat) + "^\n"@));
}

fn push_block(out: &mut String, index: usize, lines: &Vec<String>, frame: &Frame)
    ensures
        final(out)@ == old(out)@ + block(index as nat, lines.deep_view(), frame@),
{
    let ghost texts = lines.deep_view();
    push_decimal(out, index);
    if lines.len() == 0 {
        out.append(": ");
        push_message(out, &frame.reason);
        out.append(", got empty input\n\n");
        assert(out@ =~= old(out)@ + bare_block(index as nat, frame@.reason));
    } else {
        let (line, column) = locate_offset(lines, frame.offset);
        assert(texts[line as int] == lines[line as int]@);
        out.append(": at line ");
        push_decimal(out, line);
        match &frame.reason {
            GreedyErrorKind::Char(_) => {
                out.append(":\n");
                push_marked_line(out, &lines[line], column);
                push_message(out, &frame.reason);
                out.append(", found ");
                match frame.found {
                    Some(c) => {
                        out.push(c);
                    },
                    None => {
                        out.append("empty");
                    },
                }
                out.append("\n\n");
            },
            _ => {
                out.append(", ");
                push_message(out, &frame.reason);
                out.append(":\n");
                push_marked_line(out, &lines[line], column);
                out.append("\n");
            },
        }
        assert(out@ =~= old(out)@ + located_block(index as nat, texts, frame@));
    }
}

/// Renders a chain of failures, given in plain values, against the input
/// they were found in.
pub fn render_frames(input: &str, frames: &Vec<Frame>) -> (trace: String)
    ensures
        trace@ == trace_text(input@, views(frames@)),
{
    let lines = split_lines(input);
    let mut trace = String::new();
    let mut i: usize = 0;
    assert(trace@ =~= blocks(lines_of(input@), views(frames@), 0));
    while i < frames.len()
        invariant
            i <= frames.len(),
            lines.deep_view() == lines_of(input@),
            trace@ == blocks(lines_of(input@), views(frames@), i as nat),
        decreases frames.len() - i,
    {
        push_block(&mut trace, i, &lines, &frames[i]);
        assert(views(frames@)[i as int] == frames[i as int]@);
        i += 1;
    }
    trace
}

/// `format!` with `{:?}`: the text that the value's `Debug` impl writes.
/// That impl belongs to the caller's type, so nothing is stated of the text.
#[verifier::external_body]
fn debug_text<V: Debug>(value: &V) -> (text: String) {
    format!("{:?}", value)
}

/// Reads off a chain what the trace shows of it. The second result is how
/// the engine's classifications printed.
fn plain_frames<U: AsStr + Position, V: Debug>(e: &GreedyError<U, V>) -> (plain: (
    Vec<Frame>,
    Ghost<Seq<Seq<char>>>,
))
    ensures
        plain.1@.len() == e@.len(),
        views(plain.0@) == shown(e@, plain.1@),
{
    broadcast use vstd::string::group_string_axioms;

    let mut frames: Vec<Frame> = Vec::new();
    let ghost mut tags: Seq<Seq<char>> = Seq::empty();
    let mut i: usize = 0;
    while i < e.errors.len()
        invariant
            i <= e.errors.len(),
            frames@.len() == i,
            tags.len() == i,
            forall|k: int|
                0 <= k < i ==> (#[trigger] frames@[k])@ == (FrameView {
                    offset: e@[k].0.offset(),
                    found: first_char(e@[k].0.text()),
                    reason: e@[k].1.shown_as(tags[k]),
                }),
        decreases e.errors.len() - i,
    {
        let span = &e.errors[i].0;
        let offset = span.position();
        let mut rest = span.as_str().chars();
        let found = rest.next();
        let reason = match &e.errors[i].1 {
            GreedyErrorKind::Context(label) => GreedyErrorKind::Context(*label),
            GreedyErrorKind::Char(c) => GreedyErrorKind::Char(*c),
            GreedyErrorKind::Nom(kind) => GreedyErrorKind::Nom(debug_text(kind)),
        };
        proof {
            let tag = match reason@ {
                Reason::Kind(text) => text,
                _ => Seq::empty(),
            };
            tags = tags.push(tag);
        }
        frames.push(Frame { offset, found, reason });
        i += 1;
    }
    assert(views(frames@) =~= shown(e@, tags));
    (frames, Ghost(tags))
}

/// Transforms a chain of failures into a trace with line and column of each.
///
/// The spans say where they start; they are not checked against `input`. A
/// span that starts on no line of `input`, past its end or at its end where
/// it ends in a line break, is shown at the start of the first line. How the
/// engine's classification prints is for its `Debug` impl to say, so the
/// trace is fixed up to those texts.
pub fn convert_error<T: AsStr, U: AsStr + Position, V: Debug>(
    input: T,
    e: GreedyError<U, V>,
) -> (trace: String)
    ensures
        exists|tags: Seq<Seq<char>>|
            {
                &&& tags.len() == e@.len()
                &&& trace@ == trace_text(input.text(), #[trigger] shown(e@, tags))
            },
{
    let (frames, Ghost(tags)) = plain_frames(&e);
    render_frames(input.as_str(), &frames)
}

} // verus!
