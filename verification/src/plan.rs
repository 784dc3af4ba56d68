//! What a printer does with a run of decoded units, as a plan of operations.
//!
//! The plan says which bytes go out as they are and which glyphs are wrapped
//! in a colour, and where on the rainbow each glyph stands. It depends on the
//! text and on the printer's pen alone. The colours are found later, when
//! the plan is painted.

use vstd::prelude::*;
use vstd::utf8::encode_scalar;
use crate::decode::{decode_to_end, Unit};
use crate::escape::EscapeState;

verus! {

/// A colour of eight bits a channel.
#[derive(Clone, Copy, PartialEq, Eq, Structural, Debug)]
pub struct Rgb {
    pub r: u8,
    pub g: u8,
    pub b: u8,
}

/// How many colours the terminal is addressed with.
#[derive(Clone, Copy, PartialEq, Eq, Structural, Debug)]
pub enum ColorMode {
    /// 24-bit colour sequences.
    TrueColor,
    /// Sequences that pick one of 256 palette entries.
    Ansi256,
}

/// The shape of the colour sequences around a glyph.
#[derive(Clone, Copy, PartialEq, Eq, Structural, Debug)]
pub struct Style {
    /// Colour the background in place of the foreground.
    pub invert: bool,
    pub mode: ColorMode,
}

/// Where a glyph stands on the rainbow.
///
/// The hue of a glyph is a matter of its place alone: the row counts the
/// seed and the lines that have gone by, the shift counts the animation
/// frames that have moved the whole line, and the column counts the glyphs
/// in front of it on its line.
#[derive(Clone, Copy, PartialEq, Eq, Structural, Debug)]
pub struct GlyphPos {
    pub row: u64,
    pub shift: u64,
    pub column: u64,
}

/// The part of a printer's state that decides what the next output is.
#[derive(Clone, Copy, PartialEq, Eq, Structural, Debug)]
pub struct Pen {
    /// Where the scanner stands within a control sequence of the text.
    pub escape: EscapeState,
    /// The seed and the lines that have gone by.
    pub row: u64,
    /// The animation frames that have moved the line.
    pub shift: u64,
    /// The glyphs that stand on the line so far.
    pub column: u64,
    /// The terminal's cursor is hidden for an animation.
    pub cursor_hidden: bool,
}

/// One step of output.
pub enum Op {
    /// Bytes that go out as they are, by way of the buffer.
    Raw(Seq<u8>),
    /// The bytes of a glyph that goes out in the colour of its place, by way
    /// of the buffer.
    Glyph(Seq<u8>, GlyphPos),
    /// Bytes that go to the sink as they are, behind all that is pending.
    Direct(Seq<u8>),
    /// All that is pending goes to the sink.
    Flush,
    /// A frame of an animation is complete with what the sink holds. The
    /// flag is set for the first frame of a line.
    Mark(bool),
}

/// The end of a frame of an animation in the bytes of a sink.
#[derive(Clone, Copy, PartialEq, Eq, Structural, Debug)]
pub struct FrameMark {
    /// The offset behind the last byte of the frame.
    pub end: usize,
    /// The frame is the first of its line: the clock of the animation
    /// begins anew before it is shown.
    pub first: bool,
}

/// The bytes of U+FFFD, the character that stands for an ill-formed sequence.
pub open spec fn replacement() -> Seq<u8> {
    seq![0xEFu8, 0xBFu8, 0xBDu8]
}

/// `ESC [ ? 25 l`, which hides the terminal's cursor.
pub open spec fn hide_cursor() -> Seq<u8> {
    seq![0x1Bu8, 0x5Bu8, 0x3Fu8, 0x32u8, 0x35u8, 0x6Cu8]
}

/// `ESC [ ? 25 h`, which shows the terminal's cursor.
pub open spec fn show_cursor() -> Seq<u8> {
    seq![0x1Bu8, 0x5Bu8, 0x3Fu8, 0x32u8, 0x35u8, 0x68u8]
}

/// `ESC 7`, which saves the place of the terminal's cursor.
pub open spec fn save_cursor() -> Seq<u8> {
    seq![0x1Bu8, 0x37u8]
}

/// `ESC 8`, which takes the terminal's cursor back to the saved place.
pub open spec fn restore_cursor() -> Seq<u8> {
    seq![0x1Bu8, 0x38u8]
}

/// `ESC [ 0 m`, which resets every attribute of the terminal.
pub open spec fn reset_all() -> Seq<u8> {
    seq![0x1Bu8, 0x5Bu8, 0x30u8, 0x6Du8]
}

/// `n + 1`, held at the largest value.
pub open spec fn bump(n: u64) -> u64 {
    if n < u64::MAX {
        (n + 1) as u64
    } else {
        n
    }
}

/// Offset of the first newline in `s`, or the length of `s` where it holds
/// none.
pub open spec fn first_newline(s: Seq<u8>) -> int
    decreases s.len(),
{
    if s.len() == 0 || s[0] == 0x0A {
        0
    } else {
        1 + first_newline(s.drop_first())
    }
}

/// The line that is unfinished once `chunk` has arrived behind the
/// unfinished line `held`: what stands behind the last newline.
pub open spec fn unfinished(held: Seq<u8>, chunk: Seq<u8>) -> Seq<u8>
    decreases chunk.len(),
{
    let k = first_newline(chunk);
    if 0 <= k < chunk.len() {
        unfinished(Seq::empty(), chunk.skip(k + 1))
    } else {
        held + chunk
    }
}

/// Number of spaces that stand for a tab.
pub const TAB_WIDTH: usize = 8;

impl Pen {
    /// A pen at the start of a line of the given row.
    pub open spec fn at_row(row: u64) -> Pen {
        Pen { escape: EscapeState::Idle, row, shift: 0, column: 0, cursor_hidden: false }
    }

    pub open spec fn pos(self) -> GlyphPos {
        GlyphPos { row: self.row, shift: self.shift, column: self.column }
    }

    /// A visible glyph: it takes the colour of the pen's place, and the pen
    /// moves on by one column.
    pub open spec fn glyph(self, bytes: Seq<u8>) -> (Pen, Seq<Op>) {
        (Pen { column: bump(self.column), ..self }, seq![Op::Glyph(bytes, self.pos())])
    }

    /// `n` spaces, each a glyph of its own.
    pub open spec fn spaces(self, n: nat) -> (Pen, Seq<Op>)
        decreases n,
    {
        if n == 0 {
            (self, seq![])
        } else {
            let (before, ops) = self.spaces((n - 1) as nat);
            let (after, op) = before.glyph(seq![0x20u8]);
            (after, ops + op)
        }
    }

    /// The end of a line: the newline goes out bare, the row moves on by one
    /// and the next glyph starts a line.
    pub open spec fn line_end(self) -> (Pen, Seq<Op>) {
        (Pen { row: bump(self.row), column: 0, ..self }, seq![Op::Raw(seq![0x0Au8])])
    }

    /// A character of the text. Where the scanner finds it to belong to a
    /// control sequence, its bytes go out bare. Outside of one, a tab becomes
    /// eight spaces and any other character a glyph. Where `breaks` is set,
    /// a newline ends the line, whatever the scanner is in the middle of.
    pub open spec fn put_char(self, c: char, breaks: bool) -> (Pen, Seq<Op>) {
        if breaks && c == '\n' {
            self.line_end()
        } else if self.escape.feed(c).1 {
            (
                Pen { escape: self.escape.feed(c).0, ..self },
                seq![Op::Raw(encode_scalar(c as u32))],
            )
        } else if c == '\t' {
            self.spaces(TAB_WIDTH as nat)
        } else {
            self.glyph(encode_scalar(c as u32))
        }
    }

    /// A unit of a decoded stream. In a stream, a marker is a glyph of its
    /// own, which no control sequence swallows; in a line of text it is the
    /// character U+FFFD like any other.
    pub open spec fn put(self, unit: Unit, stream: bool) -> (Pen, Seq<Op>) {
        match unit {
            Unit::Char(c) => self.put_char(c, stream),
            Unit::Marker => if stream {
                self.glyph(replacement())
            } else {
                self.put_char('\u{FFFD}', false)
            },
        }
    }

    /// A line of text. Without colour its bytes go to the sink as they are
    /// and the pen stays where it is. With colour the line starts outside any
    /// control sequence and at the first column, its bytes are read as text
    /// in which U+FFFD stands for what is ill-formed, and it ends outside
    /// any control sequence and before the first column of a line: of the
    /// next row where a newline ends it, of the same row where none does.
    pub open spec fn plain_line(self, text: Seq<u8>, newline: bool, use_color: bool) -> (
        Pen,
        Seq<Op>,
    ) {
        if !use_color {
            (
                self,
                if newline {
                    seq![Op::Direct(text), Op::Direct(seq![0x0Au8])]
                } else {
                    seq![Op::Direct(text)]
                },
            )
        } else {
            let start = Pen { escape: EscapeState::Idle, column: 0, ..self };
            let (written, ops) = start.run(decode_to_end(text), false);
            if newline {
                let (ended, end_ops) = written.line_end();
                (Pen { escape: EscapeState::Idle, ..ended }, ops + end_ops)
            } else {
                (Pen { escape: EscapeState::Idle, column: 0, ..written }, ops)
            }
        }
    }

    /// The first `n` frames of a line's animation: each takes the terminal's
    /// cursor back to the start of the line, moves the line on by one shift
    /// and prints it without a newline. Behind each frame all that is
    /// pending goes to the sink, which gets a frame mark.
    pub open spec fn frames(self, text: Seq<u8>, n: nat, use_color: bool) -> (Pen, Seq<Op>)
        decreases n,
    {
        if n == 0 {
            (self, seq![])
        } else {
            let (before, ops) = self.frames(text, (n - 1) as nat, use_color);
            let shifted = Pen { shift: bump(before.shift), ..before };
            let (after, line) = shifted.plain_line(text, false, use_color);
            (
                after,
                ((ops + seq![Op::Raw(restore_cursor())]) + line) + seq![
                    Op::Flush,
                    Op::Mark(n == 1),
                ],
            )
        }
    }

    /// The animation of a line in `n` frames. The terminal's cursor is
    /// hidden, unless it already is, and its place is saved. Behind the last
    /// frame the shift is what it was before the first, so that the
    /// animation leaves no trace in the colours of what follows; a newline
    /// that ends the line goes out bare and moves the row on by one. At the
    /// end all that is pending goes to the sink.
    pub open spec fn animation(self, text: Seq<u8>, n: nat, newline: bool, use_color: bool) -> (
        Pen,
        Seq<Op>,
    ) {
        let head = if self.cursor_hidden {
            seq![Op::Raw(save_cursor())]
        } else {
            seq![Op::Raw(hide_cursor()), Op::Raw(save_cursor())]
        };
        let (shown, ops) = Pen { cursor_hidden: true, ..self }.frames(text, n, use_color);
        if newline {
            (
                Pen { shift: self.shift, row: bump(shown.row), ..shown },
                (head + ops) + seq![Op::Raw(seq![0x0Au8]), Op::Flush],
            )
        } else {
            (Pen { shift: self.shift, ..shown }, (head + ops) + seq![Op::Flush])
        }
    }

    /// A line of text, animated where the run asks for it and the line is
    /// not empty.
    pub open spec fn line(
        self,
        text: Seq<u8>,
        newline: bool,
        animate: bool,
        n: nat,
        use_color: bool,
    ) -> (Pen, Seq<Op>) {
        if animate && text.len() > 0 {
            self.animation(text, n, newline, use_color)
        } else {
            self.plain_line(text, newline, use_color)
        }
    }

    /// A text of several lines, each printed as a line of its own. A newline
    /// ends a line; what stands behind the last newline is a line without
    /// one, unless it is empty.
    pub open spec fn text(self, bytes: Seq<u8>, animate: bool, n: nat, use_color: bool) -> (
        Pen,
        Seq<Op>,
    )
        decreases bytes.len(),
    {
        let k = first_newline(bytes);
        if bytes.len() == 0 {
            (self, seq![])
        } else if 0 <= k < bytes.len() {
            let (after, ops) = self.line(bytes.take(k), true, animate, n, use_color);
            let (end, rest) = after.text(bytes.skip(k + 1), animate, n, use_color);
            (end, ops + rest)
        } else {
            self.line(bytes, false, animate, n, use_color)
        }
    }

    /// The lines that are complete once `chunk` has arrived behind the
    /// unfinished line `held`: each is printed with its newline.
    pub open spec fn fed(
        self,
        held: Seq<u8>,
        chunk: Seq<u8>,
        animate: bool,
        n: nat,
        use_color: bool,
    ) -> (Pen, Seq<Op>)
        decreases chunk.len(),
    {
        let k = first_newline(chunk);
        if 0 <= k < chunk.len() {
            let (after, ops) = self.line(held + chunk.take(k), true, animate, n, use_color);
            let (end, rest) = after.fed(Seq::empty(), chunk.skip(k + 1), animate, n, use_color);
            (end, ops + rest)
        } else {
            (self, seq![])
        }
    }

    /// The end of a stream that has left the bytes `carry` unfinished: one
    /// marker stands for them, if there are any, and all that is pending
    /// goes to the sink.
    pub open spec fn stream_end(self, carry: Seq<u8>) -> (Pen, Seq<Op>) {
        if carry.len() > 0 {
            (self.put(Unit::Marker, true).0, self.put(Unit::Marker, true).1 + seq![Op::Flush])
        } else {
            (self, seq![Op::Flush])
        }
    }

    /// The end of a stream of animated lines that has left the line `held`
    /// unfinished: it is printed without a newline, if it is not empty, and
    /// all that is pending goes to the sink.
    pub open spec fn lines_end(self, held: Seq<u8>, animate: bool, n: nat, use_color: bool) -> (
        Pen,
        Seq<Op>,
    ) {
        if held.len() > 0 {
            (
                self.line(held, false, animate, n, use_color).0,
                self.line(held, false, animate, n, use_color).1 + seq![Op::Flush],
            )
        } else {
            (self, seq![Op::Flush])
        }
    }

    /// The end of a run: the terminal's cursor is shown again if an
    /// animation has hidden it, a run in colour resets the terminal's
    /// attributes, and all that is pending goes to the sink.
    pub open spec fn finale(self, use_color: bool) -> (Pen, Seq<Op>) {
        (
            Pen { cursor_hidden: false, ..self },
            (if self.cursor_hidden {
                seq![Op::Raw(show_cursor())]
            } else {
                seq![]
            } + if use_color {
                seq![Op::Raw(reset_all())]
            } else {
                seq![]
            }) + seq![Op::Flush],
        )
    }

    /// A run of units, one after the other.
    pub open spec fn run(self, units: Seq<Unit>, stream: bool) -> (Pen, Seq<Op>)
        decreases units.len(),
    {
        if units.len() == 0 {
            (self, seq![])
        } else {
            let (before, ops) = self.run(units.drop_last(), stream);
            let (after, op) = before.put(units.last(), stream);
            (after, ops + op)
        }
    }
}

/// Where the first newline of `s` stands: behind `k` bytes that are none.
pub proof fn lemma_first_newline(s: Seq<u8>, k: int)
    requires
        0 <= k <= s.len(),
        forall|j: int| 0 <= j < k ==> s[j] != 0x0A,
        k < s.len() ==> s[k] == 0x0A,
    ensures
        first_newline(s) == k,
    decreases k,
{
    if k > 0 {
        let t = s.drop_first();
        assert forall|j: int| 0 <= j < k - 1 implies t[j] != 0x0A by {
            assert(t[j] == s[j + 1]);
        }
        if k < s.len() {
            assert(t[k - 1] == s[k]);
        }
        lemma_first_newline(t, k - 1);
    }
}

/// A run with one more unit is the run so far, then that unit.
pub proof fn lemma_run_push(pen: Pen, units: Seq<Unit>, unit: Unit, stream: bool)
    ensures
        pen.run(units.push(unit), stream).0 == pen.run(units, stream).0.put(unit, stream).0,
        pen.run(units.push(unit), stream).1 == pen.run(units, stream).1 + pen.run(
            units,
            stream,
        ).0.put(unit, stream).1,
{
    assert(units.push(unit).drop_last() =~= units);
}

/// The UTF-8 form of U+FFFD.
pub proof fn lemma_replacement_form()
    ensures
        encode_scalar('\u{FFFD}' as u32) == replacement(),
{
    let code: u32 = 0xFFFD;
    assert(0xE0u8 | ((code >> 12) & 0x0F) as u8 == 0xEF && 0x80u8 | ((code >> 6) & 0x3F) as u8
        == 0xBF && 0x80u8 | (code & 0x3F) as u8 == 0xBD) by (bit_vector)
        requires
            code == 0xFFFD,
    ;
    assert(encode_scalar(code) =~= replacement());
}

/// A run of units in two parts is the run of the first part, then the run of
/// the second from where the first one ended.
pub proof fn lemma_run_concat(pen: Pen, a: Seq<Unit>, b: Seq<Unit>, stream: bool)
    ensures
        pen.run(a + b, stream).0 == pen.run(a, stream).0.run(b, stream).0,
        pen.run(a + b, stream).1 == pen.run(a, stream).1 + pen.run(a, stream).0.run(
            b,
            stream,
        ).1,
    decreases b.len(),
{
    if b.len() == 0 {
        assert(a + b =~= a);
        assert(pen.run(a, stream).1 + Seq::<Op>::empty() =~= pen.run(a, stream).1);
    } else {
        lemma_run_concat(pen, a, b.drop_last(), stream);
        assert((a + b).drop_last() =~= a + b.drop_last());
        assert((a + b).last() == b.last());
        let mid = pen.run(a, stream).0;
        let head = pen.run(a, stream).1;
        let (before, ops) = mid.run(b.drop_last(), stream);
        let (after, op) = before.put(b.last(), stream);
        assert((head + ops) + op =~= head + (ops + op));
    }
}

/// The UTF-8 form of an ASCII character is the one byte of its code.
pub proof fn lemma_ascii_form(c: char)
    requires
        c as u32 <= 0x7F,
    ensures
        encode_scalar(c as u32) == seq![c as u8],
{
    let code = c as u32;
    assert((code & 0x7F) as u8 == code as u8) by (bit_vector)
        requires
            code <= 0x7F,
    ;
    assert(encode_scalar(code) =~= seq![c as u8]);
}

} // verus!
