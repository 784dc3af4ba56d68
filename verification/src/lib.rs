//! A streaming rainbow colorizer for terminal text.
//!
//! Bytes arrive in chunks of any size and leave with a colour around each
//! visible character. The hue moves a little from glyph to glyph and from
//! line to line, so that the text stands on a rainbow. Control sequences
//! that the text already holds go through untouched, bytes that are no UTF-8
//! are shown as U+FFFD, and a line can be shown as an animation.
//!
//! The library does no input or output and no floating-point arithmetic. A
//! caller hands it the chunks that it has read and a palette, a function
//! from the place of a glyph to its colour, and writes what the library
//! leaves in a [`printer::Sink`].
//!
//! - [`utf8`] scans bytes for scalars and [`decode`] says what a stream
//!   decodes to, however it is cut into chunks.
//! - [`escape`] follows control sequences in the text.
//! - [`palette`] and [`sgr`] build the colour sequences.
//! - [`buffer`] gathers short writes.
//! - [`plan`] says what a printer does with a text, [`tape`] what comes of
//!   that in the sink, and [`printer`] does it. [`laws`] holds what is true
//!   of every plan.
//! - [`stream`] feeds a source through a printer, chunk by chunk.
//! - [`pace`] keeps the time of an animation, and [`outcome`] says how a
//!   run ends when a source fails.
//! - [`term`] and [`cli`] hold small rules of the program around it.

pub mod buffer;
pub mod cli;
pub mod decode;
pub mod escape;
pub mod laws;
pub mod outcome;
pub mod pace;
pub mod palette;
pub mod plan;
pub mod printer;
pub mod sgr;
pub mod stream;
pub mod tape;
pub mod term;
pub mod utf8;
