//! An error type for backtracking parsers that keeps, wherever alternatives
//! are compared, the failure that got deepest into the input, and a renderer
//! that turns the failures it gathered into a trace with lines and carets.
//!
//! `span` says what is asked of the spans a parser reports, `error` holds the
//! error type and the rule by which two failures are compared, `lines` and
//! `place` find the line and column of a byte offset, `text` writes numbers
//! and blanks, and `render` puts the trace together.

pub mod error;
pub mod lines;
pub mod place;
pub mod render;
pub mod span;
pub mod text;

pub use error::{error_position, GreedyError, GreedyErrorKind};
pub use render::{convert_error, render_frames, Frame};
pub use span::{AsStr, Position};
