//! The printer: the state that lasts for a whole run, and the operations
//! that turn text into coloured output.

use vstd::prelude::*;
use vstd::string::StringSliceAdditionalSpecFns;
use vstd::utf8::{decode_first_scalar, encode_scalar};
use crate::buffer::{pushed, SmallBuf, PENDING_CAP};
use crate::decode::{decode, decode_to_end, lemma_decode_step, pending, Unit};
use crate::escape::{lemma_step_beyond_ascii, EscapeState};
use crate::palette::rgb_to_ansi256;
use crate::plan::{
    hide_cursor, lemma_ascii_form, lemma_first_newline, lemma_replacement_form, lemma_run_push,
    replacement, reset_all, restore_cursor, save_cursor, show_cursor, ColorMode, FrameMark,
    GlyphPos, Op, Pen, Rgb, Style, TAB_WIDTH,
};
use crate::tape::{
    colour_prefix, emits, inked, lemma_emits_chain, lemma_emits_nothing, lemma_emits_one,
    lemma_played_in_order, painted, play, played, Tape,
};
use crate::sgr::{build_ansi_prefix, build_truecolor_prefix, colour_reset, put_bytes};
use crate::utf8::{encode_char, lemma_scalar_front, lemma_scan_len, scan, scan_at, Scan};

verus! {

/// A unit in front of a run of units is the last of the units before them.
proof fn lemma_seq_push_front(done: Seq<Unit>, unit: Unit, rest: Seq<Unit>)
    ensures
        done + (seq![unit] + rest) == done.push(unit) + rest,
{
    assert(done + (seq![unit] + rest) =~= done.push(unit) + rest);
}

/// What the printer has handed to the terminal, and where an animation
/// pauses.
pub struct Sink {
    /// The bytes, in the order in which they are to be written.
    pub bytes: Vec<u8>,
    /// The places in `bytes` at which a frame of an animation is complete:
    /// the bytes in front of each are to be on the screen for one frame's
    /// time before those behind it are written.
    pub frames: Vec<FrameMark>,
}

impl Sink {
    /// A sink that holds nothing.
    pub fn new() -> (sink: Sink)
        ensures
            sink.bytes@ == Seq::<u8>::empty(),
            sink.frames@ == Seq::<FrameMark>::empty(),
    {
        Sink { bytes: Vec::new(), frames: Vec::new() }
    }
}

/// The settings of a run, fixed when the printer is made.
#[derive(Clone, Copy, PartialEq, Eq, Structural, Debug)]
pub struct Setup {
    /// Colour the text; without it the text is copied as it is.
    pub use_color: bool,
    pub style: Style,
    /// Show each line as a run of frames.
    pub animate: bool,
    /// Number of frames of a line's animation.
    pub frames: u32,
}

/// A colorizer for one run. The palette gives the colour of a glyph from its
/// place on the rainbow.
pub struct Printer<P> {
    palette: P,
    setup: Setup,
    pen: Pen,
    buffer: SmallBuf,
}

impl<P: Fn(GlyphPos) -> Rgb> Printer<P> {
    /// True of every printer that `new` has made: the palette gives a colour
    /// for every place, and what is pending fits the buffer.
    pub closed spec fn wf(&self) -> bool {
        &&& forall|pos: GlyphPos| self.palette.requires((pos,))
        &&& self.buffer@.len() <= PENDING_CAP
    }

    pub closed spec fn palette(&self) -> P {
        self.palette
    }

    /// The settings of the run.
    pub closed spec fn spec_setup(&self) -> Setup {
        self.setup
    }

    /// The state of the pen.
    pub closed spec fn spec_pen(&self) -> Pen {
        self.pen
    }

    /// The bytes that wait in the printer's buffer.
    pub closed spec fn pending(&self) -> Seq<u8> {
        self.buffer@
    }

    /// All that the printer has put out: what is in the sink, and what
    /// still waits in the buffer.
    pub open spec fn tape(&self, sink: Sink) -> Tape {
        Tape { sent: sink.bytes@, frames: sink.frames@, pending: self.pending() }
    }

    /// True when `self` is `before` up to the pen and the buffer.
    pub open spec fn same_run(&self, before: &Self) -> bool {
        &&& self.palette() == before.palette()
        &&& self.setup() == before.setup()
    }

    /// True when the printer `before`, with the sink `sink_before`, has come
    /// to `self` and `sink_after` by carrying out `drawn`: the pen is the
    /// one of `drawn`, the tape is what the plan of `drawn` makes of it in
    /// colours of the palette, and nothing else has changed.
    pub open spec fn renders(
        &self,
        before: &Self,
        sink_before: Sink,
        sink_after: Sink,
        drawn: (Pen, Seq<Op>),
    ) -> bool {
        &&& self.wf()
        &&& self.same_run(before)
        &&& self.pen() == drawn.0
        &&& emits(
            self.palette(),
            self.setup().style,
            before.tape(sink_before),
            self.tape(sink_after),
            drawn.1,
        )
    }

    /// A printer at the start of the row `offset`, with an empty buffer.
    pub fn new(palette: P, setup: Setup, offset: u64) -> (printer: Self)
        requires
            forall|pos: GlyphPos| palette.requires((pos,)),
        ensures
            printer.wf(),
            printer.palette() == palette,
            printer.setup() == setup,
            printer.pen() == Pen::at_row(offset),
            printer.pending() == Seq::<u8>::empty(),
    {
        Printer {
            palette,
            setup,
            pen: Pen {
                escape: EscapeState::Idle,
                row: offset,
                shift: 0,
                column: 0,
                cursor_hidden: false,
            },
            buffer: SmallBuf::new(),
        }
    }

    /// The settings of the run.
    #[verifier::when_used_as_spec(spec_setup)]
    pub fn setup(&self) -> (setup: Setup)
        ensures
            setup == self.spec_setup(),
    {
        self.setup
    }

    /// The state of the pen.
    #[verifier::when_used_as_spec(spec_pen)]
    pub fn pen(&self) -> (pen: Pen)
        ensures
            pen == self.spec_pen(),
    {
        self.pen
    }

    /// Puts `chunk` into the buffer, behind all that has been put out.
    fn emit(&mut self, chunk: &[u8], sink: &mut Sink)
        requires
            old(self).wf(),
        ensures
            final(self).wf(),
            final(self).same_run(old(self)),
            final(self).pen() == old(self).pen(),
            final(sink).frames@ == old(sink).frames@,
            (final(self).pending(), final(sink).bytes@) == pushed(
                old(self).pending(),
                old(sink).bytes@,
                chunk@,
            ),
    {
        self.buffer.push(&mut sink.bytes, chunk);
    }

    /// Puts the glyph of the bytes `glyph` out in the colour `rgb`: the
    /// sequence that sets the colour, the glyph, and the sequence that takes
    /// the colour back go into the buffer as one piece, and the pen moves on
    /// by one column.
    pub fn write_colored_glyph(&mut self, glyph: &[u8], rgb: Rgb, sink: &mut Sink)
        requires
            old(self).wf(),
            glyph.len() <= 4,
        ensures
            final(self).wf(),
            final(self).same_run(old(self)),
            final(self).pen() == old(self).pen().glyph(glyph@).0,
            final(self).tape(*final(sink)) == play(
                old(self).setup().style,
                old(self).tape(*old(sink)),
                Op::Glyph(glyph@, old(self).pen().pos()),
                rgb,
            ),
    {
        let invert = self.setup.style.invert;
        let mut block = [0u8; 64];
        let mut len: usize = match self.setup.style.mode {
            ColorMode::TrueColor => build_truecolor_prefix(&mut block, invert, rgb.r, rgb.g, rgb.b),
            ColorMode::Ansi256 => {
                let idx = rgb_to_ansi256(rgb.r, rgb.g, rgb.b);
                build_ansi_prefix(&mut block, invert, idx)
            },
        };
        assert(block@.subrange(0, len as int) == colour_prefix(self.setup.style, rgb));
        len = put_bytes(&mut block, len, glyph);
        let reset: [u8; 5] = [0x1b, 0x5b, if invert { 0x34 } else { 0x33 }, 0x39, 0x6d];
        assert(reset@ =~= colour_reset(invert));
        len = put_bytes(&mut block, len, &reset);
        let filled: &[u8] = block.as_slice();
        self.emit(&filled[0..len], sink);
        if self.pen.column < u64::MAX {
            self.pen.column = self.pen.column + 1;
        }
    }

    /// Puts the glyph of the bytes `glyph` out in the colour that the
    /// palette gives for its place.
    fn write_glyph(&mut self, glyph: &[u8], sink: &mut Sink)
        requires
            old(self).wf(),
            glyph.len() <= 4,
        ensures
            final(self).renders(
                old(self),
                *old(sink),
                *final(sink),
                old(self).pen().glyph(glyph@),
            ),
    {
        let pos = GlyphPos {
            row: self.pen.row,
            shift: self.pen.shift,
            column: self.pen.column,
        };
        let rgb = (self.palette)(pos);
        let ghost before = self.tape(*sink);
        self.write_colored_glyph(glyph, rgb, sink);
        proof {
            lemma_emits_one(
                self.palette,
                self.setup.style,
                before,
                Op::Glyph(glyph@, pos),
                rgb,
            );
        }
    }

    /// Two steps in a row are one step with the two plans in a row.
    pub proof fn lemma_renders_chain(
        &self,
        mid: &Self,
        before: &Self,
        sink_before: Sink,
        sink_mid: Sink,
        sink_after: Sink,
        first: (Pen, Seq<Op>),
        second: (Pen, Seq<Op>),
    )
        requires
            mid.renders(before, sink_before, sink_mid, first),
            self.renders(mid, sink_mid, sink_after, second),
        ensures
            self.renders(before, sink_before, sink_after, (second.0, first.1 + second.1)),
    {
        lemma_emits_chain(
            self.palette(),
            self.setup().style,
            before.tape(sink_before),
            mid.tape(sink_mid),
            self.tape(sink_after),
            first.1,
            second.1,
        );
    }

    /// Puts the character `ch` out as a glyph in the colour of its place.
    pub fn write_visible_char(&mut self, ch: char, sink: &mut Sink)
        requires
            old(self).wf(),
        ensures
            final(self).renders(
                old(self),
                *old(sink),
                *final(sink),
                old(self).pen().glyph(encode_scalar(ch as u32)),
            ),
    {
        let mut encoded = [0u8; 4];
        let len = encode_char(ch, &mut encoded);
        let bytes: &[u8] = encoded.as_slice();
        self.write_glyph(&bytes[0..len], sink);
    }

    /// Puts out the glyph that stands for an ill-formed sequence of bytes.
    pub fn write_replacement(&mut self, sink: &mut Sink)
        requires
            old(self).wf(),
        ensures
            final(self).renders(
                old(self),
                *old(sink),
                *final(sink),
                old(self).pen().put(Unit::Marker, true),
            ),
    {
        let marker: [u8; 3] = [0xEF, 0xBF, 0xBD];
        assert(marker@ =~= replacement());
        self.write_glyph(&marker, sink);
    }

    /// Ends the line: the newline goes out bare and the next row begins.
    pub fn finish_line(&mut self, sink: &mut Sink)
        requires
            old(self).wf(),
        ensures
            final(self).renders(old(self), *old(sink), *final(sink), old(self).pen().line_end()),
    {
        let newline: [u8; 1] = [0x0A];
        assert(newline@ =~= seq![0x0Au8]);
        self.write_raw(&newline, sink);
        if self.pen.row < u64::MAX {
            self.pen.row = self.pen.row + 1;
        }
        self.pen.column = 0;
    }

    /// Opens a control sequence: the ESC goes out bare.
    fn begin_escape(&mut self, sink: &mut Sink)
        requires
            old(self).wf(),
        ensures
            final(self).renders(
                old(self),
                *old(sink),
                *final(sink),
                (
                    Pen { escape: EscapeState::Start, ..old(self).pen() },
                    seq![Op::Raw(seq![0x1Bu8])],
                ),
            ),
    {
        let esc: [u8; 1] = [0x1B];
        assert(esc@ =~= seq![0x1Bu8]);
        self.write_raw(&esc, sink);
        self.pen.escape = EscapeState::Start;
    }

    /// Hands a character of an open control sequence on: its bytes go out
    /// bare, and the scanner moves on by `ch`.
    fn feed_escape(&mut self, bytes: &[u8], ch: char, sink: &mut Sink)
        requires
            old(self).wf(),
        ensures
            final(self).renders(
                old(self),
                *old(sink),
                *final(sink),
                (
                    Pen { escape: old(self).pen().escape.step(ch), ..old(self).pen() },
                    seq![Op::Raw(bytes@)],
                ),
            ),
    {
        self.write_raw(bytes, sink);
        self.pen.escape.advance(ch);
    }

    /// Puts out the eight spaces of a tab, each in the colour of its place.
    fn write_tab(&mut self, sink: &mut Sink)
        requires
            old(self).wf(),
        ensures
            final(self).renders(
                old(self),
                *old(sink),
                *final(sink),
                old(self).pen().spaces(TAB_WIDTH as nat),
            ),
    {
        let ghost start = *self;
        let space: [u8; 1] = [0x20];
        assert(space@ =~= seq![0x20u8]);
        proof {
            lemma_emits_nothing(self.palette, self.setup.style, self.tape(*sink));
        }
        let mut i: usize = 0;
        while i < TAB_WIDTH
            invariant
                i <= TAB_WIDTH,
                space@ == seq![0x20u8],
                self.renders(&start, *old(sink), *sink, start.pen().spaces(i as nat)),
            decreases TAB_WIDTH - i,
        {
            let ghost mid = *self;
            let ghost sink_mid = *sink;
            self.write_glyph(&space, sink);
            proof {
                self.lemma_renders_chain(
                    &mid,
                    &start,
                    *old(sink),
                    sink_mid,
                    *sink,
                    start.pen().spaces(i as nat),
                    mid.pen().glyph(space@),
                );
            }
            i += 1;
        }
    }

    /// Puts out the character of the scalar that stands in `bytes` at `at`.
    fn put_scalar(&mut self, bytes: &[u8], at: usize, n: usize, stream: bool, sink: &mut Sink)
        requires
            old(self).wf(),
            at <= bytes.len(),
            scan(bytes@.skip(at as int)) == Scan::Scalar(n),
        ensures
            final(self).renders(
                old(self),
                *old(sink),
                *final(sink),
                old(self).pen().put(
                    Unit::Char(decode_first_scalar(bytes@.skip(at as int)) as char),
                    stream,
                ),
            ),
    {
        let ghost rest = bytes@.skip(at as int);
        let ghost c = decode_first_scalar(rest) as char;
        proof {
            lemma_scalar_front(rest, n);
            assert(rest.subrange(0, n as int) =~= bytes@.subrange(at as int, at + n));
            assert(rest[0] == bytes@[at as int]);
            if c as u32 <= 0x7F {
                lemma_ascii_form(c);
            }
        }
        let lead: u8 = bytes[at];
        if stream && lead == 0x0A {
            self.finish_line(sink);
        } else if self.pen.escape.is_active() {
            let ch: char = if lead <= 0x7F {
                lead as char
            } else {
                '\u{80}'
            };
            proof {
                if lead > 0x7F {
                    lemma_step_beyond_ascii(self.pen.escape, c, ch);
                }
            }
            self.feed_escape(&bytes[at..at + n], ch, sink);
        } else if lead == 0x1B {
            self.begin_escape(sink);
        } else if lead == 0x09 {
            self.write_tab(sink);
        } else {
            self.write_glyph(&bytes[at..at + n], sink);
        }
    }

    /// Puts out what stands for an ill-formed sequence of bytes: in a stream
    /// a glyph of its own, in a line of text the character U+FFFD.
    fn put_marker(&mut self, stream: bool, sink: &mut Sink)
        requires
            old(self).wf(),
        ensures
            final(self).renders(
                old(self),
                *old(sink),
                *final(sink),
                old(self).pen().put(Unit::Marker, stream),
            ),
    {
        let marker: [u8; 3] = [0xEF, 0xBF, 0xBD];
        assert(marker@ =~= replacement());
        proof {
            lemma_replacement_form();
        }
        if !stream && self.pen.escape.is_active() {
            self.feed_escape(&marker, '\u{FFFD}', sink);
        } else {
            self.write_glyph(&marker, sink);
        }
    }

    /// A run of units that has been carried out, and one more unit behind
    /// it, are the run of all of them.
    proof fn lemma_rendered_one_more(
        &self,
        mid: &Self,
        before: &Self,
        sink_before: Sink,
        sink_mid: Sink,
        sink_after: Sink,
        done: Seq<Unit>,
        unit: Unit,
        stream: bool,
    )
        requires
            mid.renders(before, sink_before, sink_mid, before.pen().run(done, stream)),
            self.renders(mid, sink_mid, sink_after, mid.pen().put(unit, stream)),
        ensures
            self.renders(before, sink_before, sink_after, before.pen().run(done.push(unit), stream)),
    {
        self.lemma_renders_chain(
            mid,
            before,
            sink_before,
            sink_mid,
            sink_after,
            before.pen().run(done, stream),
            mid.pen().put(unit, stream),
        );
        lemma_run_push(before.pen(), done, unit, stream);
    }

    /// Decodes `bytes` and puts out their units, one after the other. In a
    /// stream, the bytes of an unfinished scalar at the end are left alone,
    /// and the result is the number of bytes in front of them; in a line of
    /// text they are ill-formed like any others, and the result is the
    /// number of all bytes.
    fn render(&mut self, bytes: &[u8], stream: bool, sink: &mut Sink) -> (consumed: usize)
        requires
            old(self).wf(),
        ensures
            consumed <= bytes.len(),
            stream ==> consumed == bytes.len() - pending(bytes@).len(),
            !stream ==> consumed == bytes.len(),
            final(self).renders(
                old(self),
                *old(sink),
                *final(sink),
                old(self).pen().run(
                    if stream {
                        decode(bytes@)
                    } else {
                        decode_to_end(bytes@)
                    },
                    stream,
                ),
            ),
    {
        let ghost start = *self;
        let ghost mut done: Seq<Unit> = Seq::empty();
        proof {
            lemma_emits_nothing(self.palette, self.setup.style, self.tape(*sink));
            assert(bytes@.skip(0) =~= bytes@);
            assert(done + decode(bytes@) =~= decode(bytes@));
        }
        let mut at: usize = 0;
        let mut open: bool = true;
        while open
            invariant
                at <= bytes.len(),
                decode(bytes@) == done + decode(bytes@.skip(at as int)),
                pending(bytes@) == pending(bytes@.skip(at as int)),
                !open ==> scan(bytes@.skip(at as int)) == Scan::Incomplete,
                self.renders(&start, *old(sink), *sink, start.pen().run(done, stream)),
            decreases bytes.len() - at, if open { 1int } else { 0int },
        {
            let ghost mid = *self;
            let ghost sink_mid = *sink;
            let ghost so_far = start.pen().run(done, stream);
            let found = scan_at(bytes, at);
            proof {
                lemma_decode_step(bytes@, at as int);
            }
            match found {
                Scan::Scalar(n) => {
                    let ghost unit = Unit::Char(
                        decode_first_scalar(bytes@.skip(at as int)) as char,
                    );
                    self.put_scalar(bytes, at, n, stream, sink);
                    proof {
                        self.lemma_rendered_one_more(
                            &mid,
                            &start,
                            *old(sink),
                            sink_mid,
                            *sink,
                            done,
                            unit,
                            stream,
                        );
                        lemma_seq_push_front(done, unit, decode(bytes@.skip(at + n)));
                        done = done.push(unit);
                    }
                    at = at + n;
                },
                Scan::Invalid(n) => {
                    self.put_marker(stream, sink);
                    proof {
                        self.lemma_rendered_one_more(
                            &mid,
                            &start,
                            *old(sink),
                            sink_mid,
                            *sink,
                            done,
                            Unit::Marker,
                            stream,
                        );
                        lemma_seq_push_front(done, Unit::Marker, decode(bytes@.skip(at + n)));
                        done = done.push(Unit::Marker);
                    }
                    at = at + n;
                },
                Scan::Incomplete => {
                    open = false;
                },
            }
        }
        proof {
            lemma_decode_step(bytes@, at as int);
            assert(done + Seq::<Unit>::empty() =~= done);
        }
        if !stream && at < bytes.len() {
            let ghost mid = *self;
            let ghost sink_mid = *sink;
            self.put_marker(stream, sink);
            proof {
                self.lemma_rendered_one_more(
                    &mid,
                    &start,
                    *old(sink),
                    sink_mid,
                    *sink,
                    done,
                    Unit::Marker,
                    stream,
                );
            }
            at = bytes.len();
        }
        at
    }

    /// Nothing is dropped and nothing changes places on the way through the
    /// buffer: what has been put out, the sink and then the buffer, has
    /// grown by the bytes of the plan in colours of the palette, and by
    /// nothing else.
    pub proof fn lemma_renders_in_order(
        &self,
        before: &Self,
        sink_before: Sink,
        sink_after: Sink,
        drawn: (Pen, Seq<Op>),
    )
        requires
            before.wf(),
            self.renders(before, sink_before, sink_after, drawn),
        ensures
            exists|colours: Seq<Rgb>|
                inked(self.palette(), drawn.1, colours) && self.tape(sink_after).flat()
                    == before.tape(sink_before).flat() + #[trigger] painted(
                    self.setup().style,
                    drawn.1,
                    colours,
                ),
    {
        reveal(emits);
        let style = self.setup().style;
        let colours = choose|colours: Seq<Rgb>|
            inked(self.palette(), drawn.1, colours) && self.tape(sink_after) == #[trigger] played(
                style,
                before.tape(sink_before),
                drawn.1,
                colours,
            );
        lemma_played_in_order(style, before.tape(sink_before), drawn.1, colours);
    }

    /// A printer that has put out nothing has carried out the empty plan.
    pub proof fn lemma_renders_nothing(&self, sink: Sink)
        requires
            self.wf(),
        ensures
            self.renders(self, sink, sink, (self.pen(), Seq::<Op>::empty())),
    {
        lemma_emits_nothing(self.palette(), self.setup().style, self.tape(sink));
    }

    /// Puts out the bytes `bytes` as they are.
    fn write_raw(&mut self, bytes: &[u8], sink: &mut Sink)
        requires
            old(self).wf(),
        ensures
            final(self).renders(
                old(self),
                *old(sink),
                *final(sink),
                (old(self).pen(), seq![Op::Raw(bytes@)]),
            ),
    {
        let ghost before = self.tape(*sink);
        self.emit(bytes, sink);
        proof {
            lemma_emits_one(
                self.palette,
                self.setup.style,
                before,
                Op::Raw(bytes@),
                Rgb { r: 0, g: 0, b: 0 },
            );
        }
    }

    /// Hands all that is pending to the sink.
    pub fn flush_pending(&mut self, sink: &mut Sink)
        requires
            old(self).wf(),
        ensures
            final(self).renders(
                old(self),
                *old(sink),
                *final(sink),
                (old(self).pen(), seq![Op::Flush]),
            ),
            final(self).pending() == Seq::<u8>::empty(),
    {
        let ghost before = self.tape(*sink);
        self.buffer.flush(&mut sink.bytes);
        proof {
            lemma_emits_one(
                self.palette,
                self.setup.style,
                before,
                Op::Flush,
                Rgb { r: 0, g: 0, b: 0 },
            );
        }
    }

    /// Puts out the text `text`, whatever it holds, without a line's start
    /// and end: the pen goes on from where it is. Ill-formed bytes come out
    /// as the character U+FFFD.
    pub fn write_plain_segment(&mut self, text: &[u8], sink: &mut Sink)
        requires
            old(self).wf(),
        ensures
            final(self).renders(
                old(self),
                *old(sink),
                *final(sink),
                old(self).pen().run(decode_to_end(text@), false),
            ),
    {
        let _ = self.render(text, false, sink);
    }

    /// Puts out the part of a stream that `segment` holds, line by line, and
    /// returns the number of bytes that were read. The bytes behind them
    /// begin a scalar that `segment` does not finish; there are at most
    /// three of them.
    pub fn consume_segment(&mut self, segment: &[u8], sink: &mut Sink) -> (consumed: usize)
        requires
            old(self).wf(),
        ensures
            consumed == segment.len() - pending(segment@).len(),
            final(self).renders(
                old(self),
                *old(sink),
                *final(sink),
                old(self).pen().run(decode(segment@), true),
            ),
    {
        self.render(segment, true, sink)
    }

    /// Prints one line of text, with a newline behind it where
    /// `had_newline` is set.
    pub fn print_plain_line(&mut self, text: &[u8], had_newline: bool, sink: &mut Sink)
        requires
            old(self).wf(),
        ensures
            final(self).renders(
                old(self),
                *old(sink),
                *final(sink),
                old(self).pen().plain_line(text@, had_newline, old(self).setup().use_color),
            ),
            !old(self).setup().use_color ==> final(self).pending() == Seq::<u8>::empty(),
    {
        if !self.setup.use_color {
            let ghost before = self.tape(*sink);
            let ghost black = Rgb { r: 0, g: 0, b: 0 };
            self.buffer.flush(&mut sink.bytes);
            sink.bytes.extend_from_slice(text);
            let ghost copied = self.tape(*sink);
            proof {
                lemma_emits_one(self.palette, self.setup.style, before, Op::Direct(text@), black);
                assert(copied.sent =~= before.sent + before.pending + text@);
            }
            if had_newline {
                sink.bytes.push(0x0A);
                proof {
                    lemma_emits_one(
                        self.palette,
                        self.setup.style,
                        copied,
                        Op::Direct(seq![0x0Au8]),
                        black,
                    );
                    assert(self.tape(*sink).sent =~= copied.sent + copied.pending + seq![0x0Au8]);
                    lemma_emits_chain(
                        self.palette,
                        self.setup.style,
                        before,
                        copied,
                        self.tape(*sink),
                        seq![Op::Direct(text@)],
                        seq![Op::Direct(seq![0x0Au8])],
                    );
                    assert(seq![Op::Direct(text@)] + seq![Op::Direct(seq![0x0Au8])] =~= seq![
                        Op::Direct(text@),
                        Op::Direct(seq![0x0Au8]),
                    ]);
                }
            }
            return ;
        }
        self.pen.column = 0;
        self.pen.escape = EscapeState::Idle;
        let ghost start = *self;
        self.write_plain_segment(text, sink);
        let ghost written = *self;
        let ghost sink_written = *sink;
        if had_newline {
            self.finish_line(sink);
            proof {
                self.lemma_renders_chain(
                    &written,
                    &start,
                    *old(sink),
                    sink_written,
                    *sink,
                    start.pen().run(decode_to_end(text@), false),
                    written.pen().line_end(),
                );
            }
        } else {
            self.pen.column = 0;
        }
        self.pen.escape = EscapeState::Idle;
    }

    /// Shows one line as an animation: the frames of the run, one after the
    /// other over the same place of the screen, each moved on by one shift.
    /// The sink gets a frame mark behind each frame. The animation leaves
    /// the shift as it was.
    pub fn animate_line(&mut self, text: &[u8], had_newline: bool, sink: &mut Sink)
        requires
            old(self).wf(),
        ensures
            final(self).renders(
                old(self),
                *old(sink),
                *final(sink),
                old(self).pen().animation(
                    text@,
                    old(self).setup().frames as nat,
                    had_newline,
                    old(self).setup().use_color,
                ),
            ),
            final(self).pending() == Seq::<u8>::empty(),
    {
        let ghost use_color = self.setup.use_color;
        let ghost black = Rgb { r: 0, g: 0, b: 0 };
        let ghost head = if self.pen.cursor_hidden {
            seq![Op::Raw(save_cursor())]
        } else {
            seq![Op::Raw(hide_cursor()), Op::Raw(save_cursor())]
        };
        proof {
            self.lemma_renders_nothing(*sink);
        }
        if !self.pen.cursor_hidden {
            let hide: [u8; 6] = [0x1B, 0x5B, 0x3F, 0x32, 0x35, 0x6C];
            assert(hide@ =~= hide_cursor());
            self.write_raw(&hide, sink);
            self.pen.cursor_hidden = true;
        }
        let ghost hidden = *self;
        let ghost sink_hidden = *sink;
        let save: [u8; 2] = [0x1B, 0x37];
        assert(save@ =~= save_cursor());
        self.write_raw(&save, sink);
        let ghost first = Pen { cursor_hidden: true, ..old(self).pen() };
        proof {
            self.lemma_renders_chain(
                &hidden,
                old(self),
                *old(sink),
                sink_hidden,
                *sink,
                (
                    first,
                    if old(self).pen().cursor_hidden {
                        Seq::<Op>::empty()
                    } else {
                        seq![Op::Raw(hide_cursor())]
                    },
                ),
                (first, seq![Op::Raw(save_cursor())]),
            );
            if old(self).pen().cursor_hidden {
                assert(Seq::<Op>::empty() + seq![Op::Raw(save_cursor())] =~= head);
            } else {
                assert(seq![Op::Raw(hide_cursor())] + seq![Op::Raw(save_cursor())] =~= head);
            }
            assert(head + first.frames(text@, 0, use_color).1 =~= head);
        }
        let shift_before: u64 = self.pen.shift;
        let frames: u32 = self.setup.frames;
        let restore: [u8; 2] = [0x1B, 0x38];
        assert(restore@ =~= restore_cursor());
        let mut k: u32 = 0;
        while k < frames
            invariant
                k <= frames,
                frames == old(self).setup().frames,
                use_color == old(self).setup().use_color,
                shift_before == old(self).pen().shift,
                restore@ == restore_cursor(),
                first == (Pen { cursor_hidden: true, ..old(self).pen() }),
                self.renders(
                    old(self),
                    *old(sink),
                    *sink,
                    (first.frames(text@, k as nat, use_color).0, head + first.frames(
                        text@,
                        k as nat,
                        use_color,
                    ).1),
                ),
            decreases frames - k,
        {
            let ghost begun = *self;
            let ghost sink_begun = *sink;
            let ghost so_far = first.frames(text@, k as nat, use_color);
            self.write_raw(&restore, sink);
            if self.pen.shift < u64::MAX {
                self.pen.shift = self.pen.shift + 1;
            }
            let ghost shifted = *self;
            let ghost sink_shifted = *sink;
            self.print_plain_line(text, false, sink);
            let ghost printed = *self;
            let ghost sink_printed = *sink;
            self.flush_pending(sink);
            let ghost flushed = *self;
            let ghost sink_flushed = *sink;
            let mark = FrameMark { end: sink.bytes.len(), first: k == 0 };
            sink.frames.push(mark);
            proof {
                let line = shifted.pen().plain_line(text@, false, use_color).1;
                let restored = (head + so_far.1) + seq![Op::Raw(restore_cursor())];
                shifted.lemma_renders_chain(
                    &begun,
                    old(self),
                    *old(sink),
                    sink_begun,
                    sink_shifted,
                    (so_far.0, head + so_far.1),
                    (shifted.pen(), seq![Op::Raw(restore_cursor())]),
                );
                printed.lemma_renders_chain(
                    &shifted,
                    old(self),
                    *old(sink),
                    sink_shifted,
                    sink_printed,
                    (shifted.pen(), restored),
                    shifted.pen().plain_line(text@, false, use_color),
                );
                flushed.lemma_renders_chain(
                    &printed,
                    old(self),
                    *old(sink),
                    sink_printed,
                    sink_flushed,
                    (printed.pen(), restored + line),
                    (printed.pen(), seq![Op::Flush]),
                );
                lemma_emits_one(
                    self.palette,
                    self.setup.style,
                    flushed.tape(sink_flushed),
                    Op::Mark(k == 0),
                    black,
                );
                assert(self.tape(*sink) == play(
                    self.setup.style,
                    flushed.tape(sink_flushed),
                    Op::Mark(k == 0),
                    black,
                ));
                self.lemma_renders_chain(
                    &flushed,
                    old(self),
                    *old(sink),
                    sink_flushed,
                    *sink,
                    (printed.pen(), (restored + line) + seq![Op::Flush]),
                    (printed.pen(), seq![Op::Mark(k == 0)]),
                );
                assert((((restored + line) + seq![Op::Flush]) + seq![Op::Mark(k == 0)]) =~= head
                    + (((so_far.1 + seq![Op::Raw(restore_cursor())]) + line) + seq![
                    Op::Flush,
                    Op::Mark(k == 0),
                ]));
            }
            k = k + 1;
        }
        self.pen.shift = shift_before;
        let ghost shown = *self;
        let ghost sink_shown = *sink;
        let ghost shown_ops = head + first.frames(text@, frames as nat, use_color).1;
        if had_newline {
            let newline: [u8; 1] = [0x0A];
            assert(newline@ =~= seq![0x0Au8]);
            self.write_raw(&newline, sink);
            if self.pen.row < u64::MAX {
                self.pen.row = self.pen.row + 1;
            }
            proof {
                self.lemma_renders_chain(
                    &shown,
                    old(self),
                    *old(sink),
                    sink_shown,
                    *sink,
                    (shown.pen(), shown_ops),
                    (self.pen(), seq![Op::Raw(seq![0x0Au8])]),
                );
            }
        }
        let ghost ended = *self;
        let ghost sink_ended = *sink;
        let ghost ended_ops = if had_newline {
            shown_ops + seq![Op::Raw(seq![0x0Au8])]
        } else {
            shown_ops
        };
        self.flush_pending(sink);
        proof {
            self.lemma_renders_chain(
                &ended,
                old(self),
                *old(sink),
                sink_ended,
                *sink,
                (ended.pen(), ended_ops),
                (ended.pen(), seq![Op::Flush]),
            );
            if had_newline {
                assert((shown_ops + seq![Op::Raw(seq![0x0Au8])]) + seq![Op::Flush] =~= shown_ops
                    + seq![Op::Raw(seq![0x0Au8]), Op::Flush]);
            }
        }
    }

    /// Prints one line of text: as an animation where the run asks for one
    /// and the line is not empty, plainly otherwise.
    pub fn print_line(&mut self, text: &[u8], had_newline: bool, sink: &mut Sink)
        requires
            old(self).wf(),
        ensures
            final(self).renders(
                old(self),
                *old(sink),
                *final(sink),
                old(self).pen().line(
                    text@,
                    had_newline,
                    old(self).setup().animate,
                    old(self).setup().frames as nat,
                    old(self).setup().use_color,
                ),
            ),
    {
        if self.setup.animate && text.len() > 0 {
            self.animate_line(text, had_newline, sink);
        } else {
            self.print_plain_line(text, had_newline, sink);
        }
    }

    /// Prints a text of several lines, line by line.
    pub fn print_text(&mut self, text: &str, sink: &mut Sink)
        requires
            old(self).wf(),
        ensures
            final(self).renders(
                old(self),
                *old(sink),
                *final(sink),
                old(self).pen().text(
                    text.spec_bytes(),
                    old(self).setup().animate,
                    old(self).setup().frames as nat,
                    old(self).setup().use_color,
                ),
            ),
    {
        let bytes: &[u8] = text.as_bytes();
        let ghost animate = self.setup.animate;
        let ghost n = self.setup.frames as nat;
        let ghost use_color = self.setup.use_color;
        let ghost whole = old(self).pen().text(bytes@, animate, n, use_color);
        let ghost mut done: Seq<Op> = Seq::empty();
        proof {
            self.lemma_renders_nothing(*sink);
            assert(bytes@.skip(0) =~= bytes@);
            assert(done + whole.1 =~= whole.1);
        }
        let mut start: usize = 0;
        let mut idx: usize = 0;
        while idx < bytes.len()
            invariant
                start <= idx <= bytes.len(),
                animate == old(self).setup().animate,
                n == old(self).setup().frames as nat,
                use_color == old(self).setup().use_color,
                forall|j: int| start <= j < idx ==> bytes@[j] != 0x0A,
                self.renders(old(self), *old(sink), *sink, (self.pen(), done)),
                whole.0 == self.pen().text(bytes@.skip(start as int), animate, n, use_color).0,
                whole.1 == done + self.pen().text(
                    bytes@.skip(start as int),
                    animate,
                    n,
                    use_color,
                ).1,
            decreases bytes.len() - idx,
        {
            if bytes[idx] == 0x0A {
                let ghost rest = bytes@.skip(start as int);
                let ghost mid = *self;
                let ghost sink_mid = *sink;
                proof {
                    assert forall|j: int| 0 <= j < idx - start implies rest[j] != 0x0A by {
                        assert(rest[j] == bytes@[start + j]);
                    }
                    lemma_first_newline(rest, idx - start);
                    assert(rest.take(idx - start) =~= bytes@.subrange(start as int, idx as int));
                    assert(rest.skip(idx - start + 1) =~= bytes@.skip(idx + 1));
                }
                self.print_line(&bytes[start..idx], true, sink);
                proof {
                    let line = mid.pen().line(rest.take(idx - start), true, animate, n, use_color);
                    self.lemma_renders_chain(
                        &mid,
                        old(self),
                        *old(sink),
                        sink_mid,
                        *sink,
                        (mid.pen(), done),
                        line,
                    );
                    let after = self.pen().text(bytes@.skip(idx + 1), animate, n, use_color);
                    assert((done + line.1) + after.1 =~= done + (line.1 + after.1));
                    done = done + line.1;
                }
                start = idx + 1;
            }
            idx += 1;
        }
        if start < bytes.len() {
            let ghost rest = bytes@.skip(start as int);
            let ghost mid = *self;
            let ghost sink_mid = *sink;
            proof {
                assert forall|j: int| 0 <= j < rest.len() implies rest[j] != 0x0A by {
                    assert(rest[j] == bytes@[start + j]);
                }
                lemma_first_newline(rest, rest.len() as int);
                assert(rest =~= bytes@.subrange(start as int, bytes.len() as int));
            }
            self.print_line(&bytes[start..bytes.len()], false, sink);
            proof {
                self.lemma_renders_chain(
                    &mid,
                    old(self),
                    *old(sink),
                    sink_mid,
                    *sink,
                    (mid.pen(), done),
                    mid.pen().line(rest, false, animate, n, use_color),
                );
            }
        } else {
            proof {
                assert(bytes@.skip(start as int).len() == 0);
                assert(done + Seq::<Op>::empty() =~= done);
            }
        }
    }

    /// Ends the run: shows the terminal's cursor again if an animation has
    /// hidden it, resets the colours of a run in colour, and hands all that
    /// is pending to the sink.
    pub fn finalize(&mut self, sink: &mut Sink)
        requires
            old(self).wf(),
        ensures
            final(self).renders(
                old(self),
                *old(sink),
                *final(sink),
                old(self).pen().finale(old(self).setup().use_color),
            ),
            final(self).pending() == Seq::<u8>::empty(),
    {
        let ghost shown_ops = if self.pen.cursor_hidden {
            seq![Op::Raw(show_cursor())]
        } else {
            Seq::<Op>::empty()
        };
        proof {
            self.lemma_renders_nothing(*sink);
        }
        if self.pen.cursor_hidden {
            let show: [u8; 6] = [0x1B, 0x5B, 0x3F, 0x32, 0x35, 0x68];
            assert(show@ =~= show_cursor());
            self.write_raw(&show, sink);
            self.pen.cursor_hidden = false;
        }
        let ghost shown = *self;
        let ghost sink_shown = *sink;
        if self.setup.use_color {
            let reset: [u8; 4] = [0x1B, 0x5B, 0x30, 0x6D];
            assert(reset@ =~= reset_all());
            self.write_raw(&reset, sink);
            proof {
                self.lemma_renders_chain(
                    &shown,
                    old(self),
                    *old(sink),
                    sink_shown,
                    *sink,
                    (shown.pen(), shown_ops),
                    (shown.pen(), seq![Op::Raw(reset_all())]),
                );
            }
        } else {
            proof {
                assert(shown_ops + Seq::<Op>::empty() =~= shown_ops);
            }
        }
        let ghost ended = *self;
        let ghost sink_ended = *sink;
        let ghost ended_ops = shown_ops + if self.setup.use_color {
            seq![Op::Raw(reset_all())]
        } else {
            Seq::<Op>::empty()
        };
        self.flush_pending(sink);
        proof {
            self.lemma_renders_chain(
                &ended,
                old(self),
                *old(sink),
                sink_ended,
                *sink,
                (ended.pen(), ended_ops),
                (ended.pen(), seq![Op::Flush]),
            );
        }
    }
}

} // verus!
