//! What holds of every plan: control sequences go through untouched, a tab
//! is eight glyphs, an animation leaves no trace in the colours of what
//! follows, and the cuts between chunks do not show.

use vstd::prelude::*;
use vstd::utf8::encode_scalar;
use crate::decode::{
    decode, decode_to_end, joined, lemma_decode_chunks, lemma_pending_twice, pending, Unit,
};
use crate::escape::{EscapeState, ESC};
use crate::plan::{
    bump, lemma_ascii_form, lemma_run_concat, lemma_run_push, replacement, GlyphPos, Op, Pen, Rgb,
    Style,
};
use crate::tape::{lemma_painted_concat, painted};

verus! {

/// The bytes of a unit of text: the UTF-8 form of a character, the form of
/// U+FFFD for a marker.
pub open spec fn unit_bytes(unit: Unit) -> Seq<u8> {
    match unit {
        Unit::Char(c) => encode_scalar(c as u32),
        Unit::Marker => replacement(),
    }
}

/// True when every unit of `units` goes out bare in `ops`: one raw
/// operation for each, with the unit's own bytes.
pub open spec fn bare(units: Seq<Unit>, ops: Seq<Op>) -> bool {
    &&& ops.len() == units.len()
    &&& forall|i: int| 0 <= i < units.len() ==> #[trigger] ops[i] == Op::Raw(unit_bytes(units[i]))
}

/// What belongs to a control sequence goes out bare: a character that the
/// scanner finds inside of one comes out as its own bytes, and so does a
/// newline that ends a line on the way.
pub proof fn lemma_escape_goes_out_bare(pen: Pen, c: char, stream: bool)
    requires
        pen.escape.feed(c).1,
    ensures
        pen.put(Unit::Char(c), stream).1 == seq![Op::Raw(encode_scalar(c as u32))],
        !(stream && c == '\n') ==> pen.put(Unit::Char(c), stream).0 == (Pen {
            escape: pen.escape.feed(c).0,
            ..pen
        }),
{
    if c == '\n' {
        lemma_ascii_form(c);
    }
}

/// True when `units` are characters of which none ends a control sequence
/// that `ESC [` has opened.
pub open spec fn csi_parameters(units: Seq<Unit>) -> bool {
    forall|i: int|
        0 <= i < units.len() ==> (#[trigger] units[i] matches Unit::Char(c) && !('@' <= c <= '~'))
}

/// The inside of a control sequence that `ESC [` has opened goes out bare,
/// and leaves the sequence open.
proof fn lemma_csi_parameters_bare(pen: Pen, params: Seq<Unit>, stream: bool)
    requires
        pen.escape == EscapeState::Csi,
        csi_parameters(params),
    ensures
        pen.run(params, stream).0.escape == EscapeState::Csi,
        bare(params, pen.run(params, stream).1),
    decreases params.len(),
{
    if params.len() > 0 {
        let front = params.drop_last();
        assert forall|i: int| 0 <= i < front.len() implies (#[trigger] front[i] matches Unit::Char(
            c,
        ) && !('@' <= c <= '~')) by {
            assert(front[i] == params[i]);
        }
        lemma_csi_parameters_bare(pen, front, stream);
        let (before, ops) = pen.run(front, stream);
        assert(params[params.len() - 1] == params.last());
        match params.last() {
            Unit::Char(c) => {
                if c == '\n' {
                    lemma_ascii_form(c);
                }
            },
            Unit::Marker => {},
        }
        let (after, op) = before.put(params.last(), stream);
        assert(op =~= seq![Op::Raw(unit_bytes(params.last()))]);
        let all = ops + op;
        assert forall|i: int| 0 <= i < params.len() implies #[trigger] all[i] == Op::Raw(
            unit_bytes(params[i]),
        ) by {
            if i < front.len() {
                assert(all[i] == ops[i]);
                assert(front[i] == params[i]);
            }
        }
    }
}

/// A control sequence `ESC [ ... final` that begins outside any other goes
/// out as it stands in the text: each of its characters bare, one after the
/// other, with no colour between them. Behind it the text is outside any
/// control sequence again.
pub proof fn lemma_csi_goes_out_bare(pen: Pen, params: Seq<Unit>, last: char, stream: bool)
    requires
        !pen.escape.active(),
        csi_parameters(params),
        '@' <= last <= '~',
    ensures
        ({
            let sequence = (seq![Unit::Char(ESC), Unit::Char('[')] + params).push(
                Unit::Char(last),
            );
            &&& !pen.run(sequence, stream).0.escape.active()
            &&& bare(sequence, pen.run(sequence, stream).1)
        }),
{
    let opening = seq![Unit::Char(ESC), Unit::Char('[')];
    let sequence = (opening + params).push(Unit::Char(last));
    assert(opening.drop_last() =~= seq![Unit::Char(ESC)]);
    assert(seq![Unit::Char(ESC)].drop_last() =~= Seq::<Unit>::empty());
    assert(pen.run(opening, stream).1 =~= seq![
        Op::Raw(unit_bytes(Unit::Char(ESC))),
        Op::Raw(unit_bytes(Unit::Char('['))),
    ]) by {
        reveal_with_fuel(Pen::run, 3);
    }
    assert(pen.run(opening, stream).0.escape == EscapeState::Csi) by {
        reveal_with_fuel(Pen::run, 3);
    }
    let opened = pen.run(opening, stream).0;
    lemma_csi_parameters_bare(opened, params, stream);
    lemma_run_concat(pen, opening, params, stream);
    lemma_run_push(pen, opening + params, Unit::Char(last), stream);
    let inner = pen.run(opening + params, stream);
    let ops = pen.run(sequence, stream).1;
    assert forall|i: int| 0 <= i < sequence.len() implies #[trigger] ops[i] == Op::Raw(
        unit_bytes(sequence[i]),
    ) by {
        if i < 2 {
            assert(sequence[i] == opening[i]);
            assert(ops[i] == pen.run(opening, stream).1[i]);
        } else if i < 2 + params.len() {
            assert(sequence[i] == params[i - 2]);
            assert(ops[i] == opened.run(params, stream).1[i - 2]);
        } else {
            assert(sequence[i] == Unit::Char(last));
        }
    }
}

/// The bytes of units in a row.
pub open spec fn units_bytes(units: Seq<Unit>) -> Seq<u8>
    decreases units.len(),
{
    if units.len() == 0 {
        seq![]
    } else {
        units_bytes(units.drop_last()) + unit_bytes(units.last())
    }
}

/// Units that go out bare come out as their own bytes, whatever the colours.
pub proof fn lemma_bare_paints_itself(
    style: Style,
    units: Seq<Unit>,
    ops: Seq<Op>,
    colours: Seq<Rgb>,
)
    requires
        bare(units, ops),
        colours.len() == ops.len(),
    ensures
        painted(style, ops, colours) == units_bytes(units),
    decreases units.len(),
{
    if units.len() > 0 {
        let front = units.drop_last();
        let front_ops = ops.drop_last();
        assert forall|i: int| 0 <= i < front.len() implies #[trigger] front_ops[i] == Op::Raw(
            unit_bytes(front[i]),
        ) by {
            assert(front_ops[i] == ops[i]);
            assert(front[i] == units[i]);
        }
        lemma_bare_paints_itself(style, front, front_ops, colours.drop_last());
        assert(ops.last() == ops[units.len() - 1]);
    }
}

/// A control sequence `ESC [ ... final` stands in the output as it stands in
/// the text, wherever in the text it begins outside any other: the output
/// is what comes of the text before it, then the bytes of the sequence and
/// nothing between them, then what comes of the text behind it.
pub proof fn lemma_csi_stands_in_output(
    pen: Pen,
    before: Seq<Unit>,
    params: Seq<Unit>,
    last: char,
    after: Seq<Unit>,
    stream: bool,
    style: Style,
    colours: Seq<Rgb>,
)
    requires
        !pen.run(before, stream).0.escape.active(),
        csi_parameters(params),
        '@' <= last <= '~',
        colours.len() == pen.run(
            (before + (seq![Unit::Char(ESC), Unit::Char('[')] + params).push(Unit::Char(last)))
                + after,
            stream,
        ).1.len(),
    ensures
        ({
            let sequence = (seq![Unit::Char(ESC), Unit::Char('[')] + params).push(
                Unit::Char(last),
            );
            let (opened, head) = pen.run(before, stream);
            let (closed, body) = opened.run(sequence, stream);
            let tail = closed.run(after, stream).1;
            let ops = pen.run((before + sequence) + after, stream).1;
            &&& ops == (head + body) + tail
            &&& bare(sequence, body)
            &&& painted(style, ops, colours) == (painted(
                style,
                head,
                colours.subrange(0, head.len() as int),
            ) + units_bytes(sequence)) + painted(
                style,
                tail,
                colours.subrange((head.len() + body.len()) as int, colours.len() as int),
            )
        }),
{
    let sequence = (seq![Unit::Char(ESC), Unit::Char('[')] + params).push(Unit::Char(last));
    let (opened, head) = pen.run(before, stream);
    let (closed, body) = opened.run(sequence, stream);
    let tail = closed.run(after, stream).1;
    lemma_csi_goes_out_bare(opened, params, last, stream);
    lemma_run_concat(pen, before, sequence, stream);
    lemma_run_concat(pen, before + sequence, after, stream);
    let c1 = colours.subrange(0, head.len() as int);
    let c2 = colours.subrange(head.len() as int, (head.len() + body.len()) as int);
    let c3 = colours.subrange((head.len() + body.len()) as int, colours.len() as int);
    assert(colours =~= (c1 + c2) + c3);
    lemma_painted_concat(style, head, c1, body, c2);
    lemma_painted_concat(style, head + body, c1 + c2, tail, c3);
    lemma_bare_paints_itself(style, sequence, body, c2);
}

/// `n` more than `column`, held at the largest value.
pub open spec fn columns_on(column: u64, n: nat) -> u64 {
    if column + n <= u64::MAX {
        (column + n) as u64
    } else {
        u64::MAX
    }
}

/// The spaces of a run of spaces stand in successive columns.
pub proof fn lemma_spaces_in_a_row(pen: Pen, n: nat)
    ensures
        pen.spaces(n).0 == (Pen { column: columns_on(pen.column, n), ..pen }),
        pen.spaces(n).1.len() == n,
        forall|i: int|
            0 <= i < n ==> #[trigger] pen.spaces(n).1[i] == Op::Glyph(
                seq![0x20u8],
                GlyphPos { row: pen.row, shift: pen.shift, column: columns_on(pen.column, i as nat) },
            ),
    decreases n,
{
    if n > 0 {
        lemma_spaces_in_a_row(pen, (n - 1) as nat);
        let (before, ops) = pen.spaces((n - 1) as nat);
        let (after, op) = before.glyph(seq![0x20u8]);
        let all = ops + op;
        assert forall|i: int| 0 <= i < n implies #[trigger] all[i] == Op::Glyph(
            seq![0x20u8],
            GlyphPos { row: pen.row, shift: pen.shift, column: columns_on(pen.column, i as nat) },
        ) by {
            if i < n - 1 {
                assert(all[i] == ops[i]);
            }
        }
    }
}

/// A tab outside any control sequence is eight spaces, each a glyph of its
/// own in the colour of its own column.
pub proof fn lemma_tab_is_eight_spaces(pen: Pen, stream: bool)
    requires
        !pen.escape.active(),
    ensures
        pen.put(Unit::Char('\t'), stream).0 == (Pen { column: columns_on(pen.column, 8), ..pen }),
        pen.put(Unit::Char('\t'), stream).1.len() == 8,
        forall|i: int|
            0 <= i < 8 ==> #[trigger] pen.put(Unit::Char('\t'), stream).1[i] == Op::Glyph(
                seq![0x20u8],
                GlyphPos { row: pen.row, shift: pen.shift, column: columns_on(pen.column, i as nat) },
            ),
{
    lemma_spaces_in_a_row(pen, 8);
}

/// A line of text that no newline ends leaves the row and the shift as they
/// were.
pub proof fn lemma_run_keeps_row(pen: Pen, units: Seq<Unit>)
    ensures
        pen.run(units, false).0.row == pen.row,
        pen.run(units, false).0.shift == pen.shift,
        pen.run(units, false).0.cursor_hidden == pen.cursor_hidden,
    decreases units.len(),
{
    if units.len() > 0 {
        lemma_run_keeps_row(pen, units.drop_last());
        let before = pen.run(units.drop_last(), false).0;
        lemma_spaces_in_a_row(before, 8);
    }
}

/// The frames of an animation move the shift and nothing else of the
/// rainbow: the row stays.
pub proof fn lemma_frames_keep_row(pen: Pen, text: Seq<u8>, n: nat, use_color: bool)
    ensures
        pen.frames(text, n, use_color).0.row == pen.row,
        pen.frames(text, n, use_color).0.cursor_hidden == pen.cursor_hidden,
    decreases n,
{
    if n > 0 {
        lemma_frames_keep_row(pen, text, (n - 1) as nat, use_color);
        let before = pen.frames(text, (n - 1) as nat, use_color).0;
        let shifted = Pen { shift: bump(before.shift), ..before };
        let start = Pen { escape: EscapeState::Idle, column: 0, ..shifted };
        lemma_run_keeps_row(start, decode_to_end(text));
    }
}

/// An animation leaves no trace in the offset: behind any number of frames
/// the shift is what it was, and the row has moved on by the newline that
/// ended the line, if there was one, and by nothing else.
pub proof fn lemma_animation_restores_offset(
    pen: Pen,
    text: Seq<u8>,
    n: nat,
    newline: bool,
    use_color: bool,
)
    ensures
        pen.animation(text, n, newline, use_color).0.shift == pen.shift,
        pen.animation(text, n, newline, use_color).0.row == if newline {
            bump(pen.row)
        } else {
            pen.row
        },
{
    lemma_frames_keep_row(Pen { cursor_hidden: true, ..pen }, text, n, use_color);
}

/// A stream that arrives in two chunks is coloured as the whole stream is:
/// the plan of the first chunk, then the plan of the second behind what the
/// first left pending, is the plan of both in a row.
pub proof fn lemma_chunks_render_as_whole(pen: Pen, a: Seq<u8>, b: Seq<u8>)
    ensures
        ({
            let (mid, first) = pen.run(decode(a), true);
            let (end, second) = mid.run(decode(pending(a) + b), true);
            pen.run(decode(a + b), true) == (end, first + second)
        }),
{
    lemma_decode_chunks(a, b);
    lemma_run_concat(pen, decode(a), decode(pending(a) + b), true);
}

/// The plan of a stream that arrives in the chunks `chunks`, one after the
/// other, when `carry` is pending before the first.
pub open spec fn streamed(pen: Pen, carry: Seq<u8>, chunks: Seq<Seq<u8>>) -> (Pen, Seq<Op>)
    decreases chunks.len(),
{
    if chunks.len() == 0 {
        (pen, seq![])
    } else {
        let (mid, first) = pen.run(decode(carry + chunks[0]), true);
        let (end, rest) = streamed(mid, pending(carry + chunks[0]), chunks.drop_first());
        (end, first + rest)
    }
}

/// However a stream is cut into chunks, it is coloured as the whole stream
/// is.
pub proof fn lemma_cuts_do_not_show(pen: Pen, carry: Seq<u8>, chunks: Seq<Seq<u8>>)
    requires
        pending(carry) == carry,
    ensures
        streamed(pen, carry, chunks) == pen.run(decode(carry + joined(chunks)), true),
    decreases chunks.len(),
{
    if chunks.len() == 0 {
        assert(carry + joined(chunks) =~= carry);
        crate::decode::lemma_pending_short(carry);
        assert(decode(carry) =~= Seq::<Unit>::empty());
    } else {
        let first = carry + chunks[0];
        let rest = chunks.drop_first();
        let mid = pen.run(decode(first), true).0;
        lemma_pending_twice(first);
        lemma_cuts_do_not_show(mid, pending(first), rest);
        lemma_chunks_render_as_whole(pen, first, joined(rest));
        assert(first + joined(rest) =~= carry + joined(chunks));
    }
}

} // verus!
