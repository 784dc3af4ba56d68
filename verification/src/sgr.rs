//! The colour-setting control sequences that are put in front of a glyph, and
//! the sequences that take the colour back.

use vstd::prelude::*;

verus! {

/// Room that the longest 24-bit colour prefix takes, `ESC[38;2;255;255;255m`.
pub const TRUECOLOR_PREFIX_MAX: usize = 19;

/// Room that the longest palette colour prefix takes, `ESC[38;5;255m`.
pub const ANSI_PREFIX_MAX: usize = 11;

/// Room that a number asks for where it is written: three bytes.
pub const NUMBER_ROOM: usize = 3;

/// ASCII code of the decimal digit `d`.
pub open spec fn digit(d: int) -> u8 {
    (0x30 + d) as u8
}

/// The decimal digits of `value`, without leading zeros.
pub open spec fn decimal(value: u8) -> Seq<u8> {
    if value >= 100 {
        seq![digit(value as int / 100), digit(value as int % 100 / 10), digit(value as int % 10)]
    } else if value >= 10 {
        seq![digit(value as int / 10), digit(value as int % 10)]
    } else {
        seq![digit(value as int)]
    }
}

/// `ESC [ 3 8 ;` for the foreground, `ESC [ 4 8 ;` for the background.
pub open spec fn colour_lead(invert: bool) -> Seq<u8> {
    seq![0x1bu8, 0x5bu8, if invert { 0x34u8 } else { 0x33u8 }, 0x38u8, 0x3bu8]
}

/// The sequence that sets a 24-bit colour: `ESC [ 38 ; 2 ; R ; G ; B m`, with
/// 48 in place of 38 when the background is meant.
pub open spec fn truecolor_prefix(invert: bool, r: u8, g: u8, b: u8) -> Seq<u8> {
    (((colour_lead(invert).push(0x32).push(0x3b) + decimal(r)).push(0x3b) + decimal(g)).push(0x3b)
        + decimal(b)).push(0x6d)
}

/// The sequence that sets a palette colour: `ESC [ 38 ; 5 ; I m`, with 48 in
/// place of 38 when the background is meant.
pub open spec fn ansi_prefix(invert: bool, idx: u8) -> Seq<u8> {
    (colour_lead(invert).push(0x35).push(0x3b) + decimal(idx)).push(0x6d)
}

/// Room that the writing of a 24-bit colour prefix asks for: that of the
/// prefix, and room for a whole number where the last one is written.
pub open spec fn truecolor_room(r: u8, g: u8, b: u8) -> int {
    9 + decimal(r).len() + decimal(g).len() + if decimal(b).len() == 3 {
        4int
    } else {
        3int
    }
}

/// Room that the writing of a palette colour prefix asks for: that of the
/// prefix, and room for a whole number where the index is written.
pub open spec fn ansi_room(idx: u8) -> int {
    7 + if decimal(idx).len() == 3 {
        4int
    } else {
        3int
    }
}

/// The sequence that takes back the colour that a prefix has set:
/// `ESC [ 39 m` for the foreground, `ESC [ 49 m` for the background.
pub open spec fn colour_reset(invert: bool) -> Seq<u8> {
    seq![0x1bu8, 0x5bu8, if invert { 0x34u8 } else { 0x33u8 }, 0x39u8, 0x6du8]
}

/// True when `after` is `before` with `written` put in at its front, and the
/// rest left as it was.
pub open spec fn written_at_front(before: Seq<u8>, after: Seq<u8>, written: Seq<u8>) -> bool {
    &&& written.len() <= after.len()
    &&& after.subrange(0, written.len() as int) == written
    &&& kept_from(before, after, written.len() as int)
}

/// True when `after` has the length of `before` and its bytes from offset
/// `from` on.
pub open spec fn kept_from(before: Seq<u8>, after: Seq<u8>, from: int) -> bool {
    &&& after.len() == before.len()
    &&& forall|i: int| from <= i < before.len() ==> after[i] == before[i]
}

/// Writes the decimal digits of `value` to the front of `dst`, and returns
/// their number. The rest of `dst` stays as it is.
pub fn append_decimal_u8(dst: &mut [u8], value: u8) -> (len: usize)
    requires
        old(dst).len() >= NUMBER_ROOM,
    ensures
        len == decimal(value).len(),
        written_at_front(old(dst)@, final(dst)@, decimal(value)),
{
    let hundreds: u8 = value / 100;
    let tens: u8 = (value % 100) / 10;
    let ones: u8 = value % 10;
    let mut len: usize = 0;
    if hundreds != 0 {
        dst[len] = 0x30 + hundreds;
        len += 1;
        dst[len] = 0x30 + tens;
        len += 1;
        dst[len] = 0x30 + ones;
        len += 1;
    } else if tens != 0 {
        dst[len] = 0x30 + tens;
        len += 1;
        dst[len] = 0x30 + ones;
        len += 1;
    } else {
        dst[len] = 0x30 + ones;
        len += 1;
    }
    assert(dst@.subrange(0, len as int) =~= decimal(value));
    len
}

/// Writes the decimal digits of `value` into `buf` from offset `at` on, and
/// returns the offset behind them.
fn put_decimal(buf: &mut [u8], at: usize, value: u8) -> (end: usize)
    requires
        at + 3 <= old(buf).len(),
    ensures
        end == at + decimal(value).len(),
        final(buf)@.subrange(0, end as int) == old(buf)@.subrange(0, at as int) + decimal(value),
        kept_from(old(buf)@, final(buf)@, end as int),
{
    let (head, tail) = buf.split_at_mut(at);
    let written = append_decimal_u8(tail, value);
    proof {
        let h = head@;
        let t = tail@;
        let was = old(buf)@.subrange(at as int, old(buf)@.len() as int);
        assert(h.len() == at);
        assert((h + t).subrange(0, at + written) =~= h + t.subrange(0, written as int));
        assert forall|i: int| at + written <= i < old(buf)@.len() implies (h + t)[i] == old(
            buf,
        )@[i] by {
            assert(t[i - at] == was[i - at]);
        }
    }
    at + written
}

/// Writes `byte` into `buf` at offset `at`, and returns the offset behind it.
fn put_byte(buf: &mut [u8], at: usize, byte: u8) -> (end: usize)
    requires
        at < old(buf).len(),
    ensures
        end == at + 1,
        final(buf)@.subrange(0, end as int) == old(buf)@.subrange(0, at as int).push(byte),
        kept_from(old(buf)@, final(buf)@, end as int),
{
    buf[at] = byte;
    assert(buf@.subrange(0, at + 1) =~= old(buf)@.subrange(0, at as int).push(byte));
    at + 1
}

/// Writes `bytes` into `buf` from offset `at` on, and returns the offset
/// behind them.
pub(crate) fn put_bytes(buf: &mut [u8], at: usize, bytes: &[u8]) -> (end: usize)
    requires
        at + bytes.len() <= old(buf).len(),
    ensures
        end == at + bytes.len(),
        final(buf)@.subrange(0, end as int) == old(buf)@.subrange(0, at as int) + bytes@,
        kept_from(old(buf)@, final(buf)@, end as int),
{
    let mut i: usize = 0;
    while i < bytes.len()
        invariant
            i <= bytes.len(),
            at + bytes.len() <= buf.len(),
            buf@.subrange(0, at + i) == old(buf)@.subrange(0, at as int) + bytes@.subrange(
                0,
                i as int,
            ),
            kept_from(old(buf)@, buf@, at + i),
        decreases bytes.len() - i,
    {
        let ghost prev = buf@;
        buf[at + i] = bytes[i];
        assert(buf@.subrange(0, at + i + 1) =~= prev.subrange(0, at + i).push(bytes@[i as int]));
        assert(bytes@.subrange(0, i + 1) =~= bytes@.subrange(0, i as int).push(bytes@[i as int]));
        assert(old(buf)@.subrange(0, at as int) + bytes@.subrange(0, i + 1) =~= (old(
            buf,
        )@.subrange(0, at as int) + bytes@.subrange(0, i as int)).push(bytes@[i as int]));
        i += 1;
    }
    assert(bytes@.subrange(0, bytes.len() as int) =~= bytes@);
    at + bytes.len()
}

/// Writes the five bytes that open a colour prefix, and returns their number.
fn put_colour_lead(buf: &mut [u8], invert: bool) -> (end: usize)
    requires
        5 <= old(buf).len(),
    ensures
        end == 5,
        written_at_front(old(buf)@, final(buf)@, colour_lead(invert)),
{
    let mut len: usize = 0;
    buf[len] = 0x1b;
    len += 1;
    buf[len] = 0x5b;
    len += 1;
    buf[len] = if invert { 0x34 } else { 0x33 };
    len += 1;
    buf[len] = 0x38;
    len += 1;
    buf[len] = 0x3b;
    len += 1;
    assert(buf@.subrange(0, 5) =~= colour_lead(invert));
    len
}

/// Writes the sequence that sets the 24-bit colour `(r, g, b)` to the front
/// of `buf`, and returns its length. The rest of `buf` stays as it is.
pub fn build_truecolor_prefix(buf: &mut [u8], invert: bool, r: u8, g: u8, b: u8) -> (len: usize)
    requires
        old(buf).len() >= truecolor_room(r, g, b),
    ensures
        len == truecolor_prefix(invert, r, g, b).len(),
        len <= truecolor_room(r, g, b) <= TRUECOLOR_PREFIX_MAX,
        written_at_front(old(buf)@, final(buf)@, truecolor_prefix(invert, r, g, b)),
{
    let mut len: usize = put_colour_lead(buf, invert);
    len = put_byte(buf, len, 0x32);
    len = put_byte(buf, len, 0x3b);
    len = put_decimal(buf, len, r);
    len = put_byte(buf, len, 0x3b);
    len = put_decimal(buf, len, g);
    len = put_byte(buf, len, 0x3b);
    len = put_decimal(buf, len, b);
    len = put_byte(buf, len, 0x6d);
    len
}

/// Writes the sequence that sets the palette colour `idx` to the front of
/// `buf`, and returns its length. The rest of `buf` stays as it is.
pub fn build_ansi_prefix(buf: &mut [u8], invert: bool, idx: u8) -> (len: usize)
    requires
        old(buf).len() >= ansi_room(idx),
    ensures
        len == ansi_prefix(invert, idx).len(),
        len <= ansi_room(idx) <= ANSI_PREFIX_MAX,
        written_at_front(old(buf)@, final(buf)@, ansi_prefix(invert, idx)),
{
    let mut len: usize = put_colour_lead(buf, invert);
    len = put_byte(buf, len, 0x35);
    len = put_byte(buf, len, 0x3b);
    len = put_decimal(buf, len, idx);
    len = put_byte(buf, len, 0x6d);
    len
}

} // verus!
