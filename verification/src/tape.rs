//! The output of a printer as a tape, and what a plan makes of it.
//!
//! A plan is played on the tape operation by operation, in the colours that
//! the palette gives. The palette is a function of the caller; what it
//! returns is not known in advance, so a contract says that the tape is what
//! the plan makes of it in some colours that the palette gave.

use vstd::prelude::*;
use crate::buffer::{lemma_pushed_in_order, pushed, PENDING_CAP};
use crate::palette::ansi256;
use crate::plan::{ColorMode, FrameMark, GlyphPos, Op, Rgb, Style};
use crate::sgr::{ansi_prefix, colour_reset, truecolor_prefix};

verus! {

/// All that a printer has put out: what the sink holds, and what waits in
/// the printer's buffer.
pub struct Tape {
    /// The bytes in the sink.
    pub sent: Seq<u8>,
    /// The frame marks in the sink.
    pub frames: Seq<FrameMark>,
    /// The bytes in the buffer.
    pub pending: Seq<u8>,
}

impl Tape {
    /// The bytes that have been put out, in their order.
    pub open spec fn flat(self) -> Seq<u8> {
        self.sent + self.pending
    }
}

/// The sequence that sets the colour `rgb` in the given style.
pub open spec fn colour_prefix(style: Style, rgb: Rgb) -> Seq<u8> {
    match style.mode {
        ColorMode::TrueColor => truecolor_prefix(style.invert, rgb.r, rgb.g, rgb.b),
        ColorMode::Ansi256 => ansi_prefix(style.invert, ansi256(rgb.r, rgb.g, rgb.b) as u8),
    }
}

/// The bytes of one operation: raw bytes as they are, a glyph between the
/// sequence that sets its colour and the one that takes it back.
pub open spec fn block(style: Style, op: Op, rgb: Rgb) -> Seq<u8> {
    match op {
        Op::Raw(bytes) => bytes,
        Op::Glyph(bytes, _) => colour_prefix(style, rgb) + bytes + colour_reset(style.invert),
        Op::Direct(bytes) => bytes,
        Op::Flush => seq![],
        Op::Mark(_) => seq![],
    }
}

/// The bytes of a plan, with `colours[i]` for the glyph of `ops[i]`.
pub open spec fn painted(style: Style, ops: Seq<Op>, colours: Seq<Rgb>) -> Seq<u8>
    decreases ops.len(),
{
    if ops.len() == 0 || colours.len() == 0 {
        seq![]
    } else {
        painted(style, ops.drop_last(), colours.drop_last()) + block(
            style,
            ops.last(),
            colours.last(),
        )
    }
}

/// The tape behind one operation. What goes by way of the buffer is pushed
/// into it; what goes to the sink directly follows all that was pending.
pub open spec fn play(style: Style, tape: Tape, op: Op, rgb: Rgb) -> Tape {
    match op {
        Op::Raw(_) | Op::Glyph(_, _) => {
            let (pending, sent) = pushed(tape.pending, tape.sent, block(style, op, rgb));
            Tape { sent, pending, ..tape }
        },
        Op::Direct(bytes) => Tape {
            sent: tape.sent + tape.pending + bytes,
            pending: Seq::empty(),
            ..tape
        },
        Op::Flush => Tape { sent: tape.sent + tape.pending, pending: Seq::empty(), ..tape },
        Op::Mark(first) => Tape {
            frames: tape.frames.push(FrameMark { end: tape.sent.len() as usize, first }),
            ..tape
        },
    }
}

/// The tape behind a plan, with `colours[i]` for the glyph of `ops[i]`.
pub open spec fn played(style: Style, tape: Tape, ops: Seq<Op>, colours: Seq<Rgb>) -> Tape
    decreases ops.len(),
{
    if ops.len() == 0 || colours.len() == 0 {
        tape
    } else {
        play(
            style,
            played(style, tape, ops.drop_last(), colours.drop_last()),
            ops.last(),
            colours.last(),
        )
    }
}

/// True when `colours` holds, for each glyph of the plan, a colour that the
/// palette gave for the glyph's place.
pub open spec fn inked<P: Fn(GlyphPos) -> Rgb>(palette: P, ops: Seq<Op>, colours: Seq<Rgb>) -> bool {
    &&& colours.len() == ops.len()
    &&& forall|i: int|
        0 <= i < ops.len() ==> (#[trigger] ops[i] matches Op::Glyph(_, pos) ==> palette.ensures(
            (pos,),
            colours[i],
        ))
}

/// True when the tape has come from `before` to `after` by the plan `ops`,
/// played in colours of the palette.
#[verifier::opaque]
pub open spec fn emits<P: Fn(GlyphPos) -> Rgb>(
    palette: P,
    style: Style,
    before: Tape,
    after: Tape,
    ops: Seq<Op>,
) -> bool {
    exists|colours: Seq<Rgb>|
        inked(palette, ops, colours) && after == #[trigger] played(style, before, ops, colours)
}

/// Painting two plans in a row gives the bytes of the first, then those of
/// the second.
pub proof fn lemma_painted_concat(
    style: Style,
    ops1: Seq<Op>,
    colours1: Seq<Rgb>,
    ops2: Seq<Op>,
    colours2: Seq<Rgb>,
)
    requires
        ops1.len() == colours1.len(),
        ops2.len() == colours2.len(),
    ensures
        painted(style, ops1 + ops2, colours1 + colours2) == painted(style, ops1, colours1)
            + painted(style, ops2, colours2),
    decreases ops2.len(),
{
    if ops2.len() == 0 {
        assert(ops1 + ops2 =~= ops1);
        assert(colours1 + colours2 =~= colours1);
        assert(painted(style, ops1, colours1) + painted(style, ops2, colours2) =~= painted(
            style,
            ops1,
            colours1,
        ));
    } else {
        lemma_painted_concat(style, ops1, colours1, ops2.drop_last(), colours2.drop_last());
        assert((ops1 + ops2).drop_last() =~= ops1 + ops2.drop_last());
        assert((colours1 + colours2).drop_last() =~= colours1 + colours2.drop_last());
        assert((ops1 + ops2).last() == ops2.last());
        assert((colours1 + colours2).last() == colours2.last());
        assert(painted(style, ops1 + ops2, colours1 + colours2) =~= painted(style, ops1, colours1)
            + painted(style, ops2, colours2));
    }
}

/// Playing two plans in a row is playing the second on the tape that the
/// first has left.
pub proof fn lemma_played_concat(
    style: Style,
    tape: Tape,
    ops1: Seq<Op>,
    colours1: Seq<Rgb>,
    ops2: Seq<Op>,
    colours2: Seq<Rgb>,
)
    requires
        ops1.len() == colours1.len(),
        ops2.len() == colours2.len(),
    ensures
        played(style, tape, ops1 + ops2, colours1 + colours2) == played(
            style,
            played(style, tape, ops1, colours1),
            ops2,
            colours2,
        ),
    decreases ops2.len(),
{
    if ops2.len() == 0 {
        assert(ops1 + ops2 =~= ops1);
        assert(colours1 + colours2 =~= colours1);
    } else {
        lemma_played_concat(style, tape, ops1, colours1, ops2.drop_last(), colours2.drop_last());
        assert((ops1 + ops2).drop_last() =~= ops1 + ops2.drop_last());
        assert((colours1 + colours2).drop_last() =~= colours1 + colours2.drop_last());
        assert((ops1 + ops2).last() == ops2.last());
        assert((colours1 + colours2).last() == colours2.last());
    }
}

/// The buffer drops nothing and changes no order: a plan adds its bytes to
/// what has been put out, and nothing else. What is pending fits the buffer
/// if it did before.
pub proof fn lemma_played_in_order(style: Style, tape: Tape, ops: Seq<Op>, colours: Seq<Rgb>)
    requires
        ops.len() == colours.len(),
        tape.pending.len() <= PENDING_CAP,
    ensures
        played(style, tape, ops, colours).flat() == tape.flat() + painted(style, ops, colours),
        played(style, tape, ops, colours).pending.len() <= PENDING_CAP,
    decreases ops.len(),
{
    if ops.len() == 0 {
        assert(tape.flat() + painted(style, ops, colours) =~= tape.flat());
    } else {
        lemma_played_in_order(style, tape, ops.drop_last(), colours.drop_last());
        let mid = played(style, tape, ops.drop_last(), colours.drop_last());
        let piece = block(style, ops.last(), colours.last());
        lemma_pushed_in_order(mid.pending, mid.sent, piece);
        let end = play(style, mid, ops.last(), colours.last());
        assert(end.flat() =~= mid.flat() + piece);
        assert(end.flat() =~= tape.flat() + painted(style, ops, colours));
    }
}

/// Nothing emitted leaves the tape as it was.
pub proof fn lemma_emits_nothing<P: Fn(GlyphPos) -> Rgb>(palette: P, style: Style, at: Tape)
    ensures
        emits(palette, style, at, at, Seq::<Op>::empty()),
{
    reveal(emits);
    let colours = Seq::<Rgb>::empty();
    assert(at == played(style, at, Seq::<Op>::empty(), colours));
    assert(inked(palette, Seq::<Op>::empty(), colours));
}

/// One operation takes the tape to where it plays to. For a glyph, `rgb` is
/// a colour that the palette gave for its place.
pub proof fn lemma_emits_one<P: Fn(GlyphPos) -> Rgb>(
    palette: P,
    style: Style,
    at: Tape,
    op: Op,
    rgb: Rgb,
)
    requires
        op matches Op::Glyph(_, pos) ==> palette.ensures((pos,), rgb),
    ensures
        emits(palette, style, at, play(style, at, op, rgb), seq![op]),
{
    reveal(emits);
    let ops = seq![op];
    let colours = seq![rgb];
    assert(ops.drop_last() =~= Seq::<Op>::empty());
    assert(played(style, at, ops, colours) == play(style, at, op, rgb)) by {
        reveal_with_fuel(played, 2);
    }
    assert(inked(palette, ops, colours));
}

/// What is emitted in two steps is the two plans in a row.
pub proof fn lemma_emits_chain<P: Fn(GlyphPos) -> Rgb>(
    palette: P,
    style: Style,
    s0: Tape,
    s1: Tape,
    s2: Tape,
    ops1: Seq<Op>,
    ops2: Seq<Op>,
)
    requires
        emits(palette, style, s0, s1, ops1),
        emits(palette, style, s1, s2, ops2),
    ensures
        emits(palette, style, s0, s2, ops1 + ops2),
{
    reveal(emits);
    let c1 = choose|c: Seq<Rgb>|
        inked(palette, ops1, c) && s1 == #[trigger] played(style, s0, ops1, c);
    let c2 = choose|c: Seq<Rgb>|
        inked(palette, ops2, c) && s2 == #[trigger] played(style, s1, ops2, c);
    lemma_played_concat(style, s0, ops1, c1, ops2, c2);
    let ops = ops1 + ops2;
    let colours = c1 + c2;
    assert(inked(palette, ops, colours)) by {
        assert forall|i: int| 0 <= i < ops.len() implies (#[trigger] ops[i] matches Op::Glyph(
            _,
            pos,
        ) ==> palette.ensures((pos,), colours[i])) by {
            if i < ops1.len() {
                assert(ops[i] == ops1[i]);
                assert(colours[i] == c1[i]);
            } else {
                assert(ops[i] == ops2[i - ops1.len()]);
                assert(colours[i] == c2[i - ops1.len()]);
            }
        }
    }
}

} // verus!
