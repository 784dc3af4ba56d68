//! What a byte stream decodes to, however it is cut into chunks.
//!
//! A stream decodes to units: the characters of its well-formed scalars, and
//! a marker in place of each ill-formed sequence. Bytes at the end that begin
//! a scalar without finishing it are left pending until more bytes arrive.

use vstd::prelude::*;
use vstd::utf8::*;
use crate::utf8::{lemma_scan_len, lemma_scan_scalar, lemma_scan_stable, scan, Scan};

verus! {

/// One element of a decoded stream.
#[derive(PartialEq, Eq, Structural)]
pub enum Unit {
    /// A character of the text.
    Char(char),
    /// The place of an ill-formed sequence of bytes.
    Marker,
}

/// The units that `s` holds, up to where the pending bytes begin.
pub open spec fn decode(s: Seq<u8>) -> Seq<Unit>
    decreases s.len(),
{
    match scan(s) {
        Scan::Scalar(n) => if 1 <= n <= s.len() {
            seq![Unit::Char(decode_first_scalar(s) as char)] + decode(s.skip(n as int))
        } else {
            seq![]
        },
        Scan::Invalid(n) => if 1 <= n <= s.len() {
            seq![Unit::Marker] + decode(s.skip(n as int))
        } else {
            seq![]
        },
        Scan::Incomplete => seq![],
    }
}

/// The bytes at the end of `s` that begin a scalar and do not finish it.
pub open spec fn pending(s: Seq<u8>) -> Seq<u8>
    decreases s.len(),
{
    match scan(s) {
        Scan::Scalar(n) => if 1 <= n <= s.len() {
            pending(s.skip(n as int))
        } else {
            s
        },
        Scan::Invalid(n) => if 1 <= n <= s.len() {
            pending(s.skip(n as int))
        } else {
            s
        },
        Scan::Incomplete => s,
    }
}

/// The units of a stream that ends with `s`: those of `s`, and one marker for
/// the pending bytes, which nothing will finish.
pub open spec fn decode_to_end(s: Seq<u8>) -> Seq<Unit> {
    if pending(s).len() > 0 {
        decode(s).push(Unit::Marker)
    } else {
        decode(s)
    }
}

/// The characters among `units`, in their order.
pub open spec fn text_of(units: Seq<Unit>) -> Seq<char>
    decreases units.len(),
{
    if units.len() == 0 {
        seq![]
    } else {
        match units[0] {
            Unit::Char(c) => seq![c] + text_of(units.drop_first()),
            Unit::Marker => text_of(units.drop_first()),
        }
    }
}

/// Number of markers among `units`.
pub open spec fn markers_in(units: Seq<Unit>) -> nat
    decreases units.len(),
{
    if units.len() == 0 {
        0
    } else {
        match units[0] {
            Unit::Char(_) => markers_in(units.drop_first()),
            Unit::Marker => 1 + markers_in(units.drop_first()),
        }
    }
}

/// The characters and the markers of two runs of units in a row are those of
/// the first, then those of the second.
pub proof fn lemma_units_concat(a: Seq<Unit>, b: Seq<Unit>)
    ensures
        text_of(a + b) == text_of(a) + text_of(b),
        markers_in(a + b) == markers_in(a) + markers_in(b),
    decreases a.len(),
{
    if a.len() == 0 {
        assert(a + b =~= b);
        assert(text_of(a) + text_of(b) =~= text_of(b));
    } else {
        lemma_units_concat(a.drop_first(), b);
        assert((a + b).drop_first() =~= a.drop_first() + b);
        assert((a + b)[0] == a[0]);
        assert(text_of(a + b) =~= text_of(a) + text_of(b));
    }
}

/// One step of decoding: what stands at offset `at` of `s` is the first unit
/// of what `s` holds from there on, and the rest follows behind it.
pub proof fn lemma_decode_step(s: Seq<u8>, at: int)
    requires
        0 <= at <= s.len(),
    ensures
        match scan(s.skip(at)) {
            Scan::Scalar(n) => {
                &&& 1 <= n
                &&& at + n <= s.len()
                &&& decode(s.skip(at)) == seq![
                    Unit::Char(decode_first_scalar(s.skip(at)) as char),
                ] + decode(s.skip(at + n))
                &&& pending(s.skip(at)) == pending(s.skip(at + n))
            },
            Scan::Invalid(n) => {
                &&& 1 <= n
                &&& at + n <= s.len()
                &&& decode(s.skip(at)) == seq![Unit::Marker] + decode(s.skip(at + n))
                &&& pending(s.skip(at)) == pending(s.skip(at + n))
            },
            Scan::Incomplete => {
                &&& decode(s.skip(at)) == Seq::<Unit>::empty()
                &&& pending(s.skip(at)) == s.skip(at)
            },
        },
{
    let rest = s.skip(at);
    lemma_scan_len(rest);
    match scan(rest) {
        Scan::Scalar(n) => {
            assert(rest.skip(n as int) =~= s.skip(at + n));
        },
        Scan::Invalid(n) => {
            assert(rest.skip(n as int) =~= s.skip(at + n));
        },
        Scan::Incomplete => {},
    }
}

/// At most three bytes are ever pending, and the scanner asks for more behind
/// them.
pub proof fn lemma_pending_short(s: Seq<u8>)
    ensures
        pending(s).len() <= 3,
        pending(s).len() <= s.len(),
        scan(pending(s)) == Scan::Incomplete,
    decreases s.len(),
{
    lemma_scan_len(s);
    match scan(s) {
        Scan::Scalar(n) => {
            lemma_pending_short(s.skip(n as int));
        },
        Scan::Invalid(n) => {
            lemma_pending_short(s.skip(n as int));
        },
        Scan::Incomplete => {},
    }
}

/// What is pending of `s` is the end of `s`.
pub proof fn lemma_pending_is_tail(s: Seq<u8>)
    ensures
        pending(s).len() <= s.len(),
        pending(s) == s.skip(s.len() - pending(s).len()),
    decreases s.len(),
{
    lemma_scan_len(s);
    match scan(s) {
        Scan::Scalar(n) => {
            lemma_pending_is_tail(s.skip(n as int));
            let t = s.skip(n as int);
            assert(t.skip(t.len() - pending(t).len()) =~= s.skip(s.len() - pending(s).len()));
        },
        Scan::Invalid(n) => {
            lemma_pending_is_tail(s.skip(n as int));
            let t = s.skip(n as int);
            assert(t.skip(t.len() - pending(t).len()) =~= s.skip(s.len() - pending(s).len()));
        },
        Scan::Incomplete => {
            assert(s.skip(0) =~= s);
        },
    }
}

/// Decoding in two chunks: the second chunk is decoded behind what the first
/// one left pending, and the units of both are those of the whole.
pub proof fn lemma_decode_chunks(a: Seq<u8>, b: Seq<u8>)
    ensures
        decode(a + b) == decode(a) + decode(pending(a) + b),
        pending(a + b) == pending(pending(a) + b),
    decreases a.len(),
{
    lemma_scan_len(a);
    match scan(a) {
        Scan::Scalar(n) => {
            lemma_scan_stable(a, b);
            assert((a + b).skip(n as int) =~= a.skip(n as int) + b);
            lemma_decode_chunks(a.skip(n as int), b);
            assert(decode_first_scalar(a + b) == decode_first_scalar(a));
            assert(decode(a + b) =~= decode(a) + decode(pending(a) + b));
        },
        Scan::Invalid(n) => {
            lemma_scan_stable(a, b);
            assert((a + b).skip(n as int) =~= a.skip(n as int) + b);
            lemma_decode_chunks(a.skip(n as int), b);
            assert(decode(a + b) =~= decode(a) + decode(pending(a) + b));
        },
        Scan::Incomplete => {
            assert(decode(a) + decode(a + b) =~= decode(a + b));
        },
    }
}

/// A well-formed text decodes to its characters, without a marker, and
/// leaves nothing pending.
pub proof fn lemma_decode_valid(s: Seq<u8>)
    requires
        valid_utf8(s),
    ensures
        text_of(decode(s)) == decode_utf8(s),
        markers_in(decode(s)) == 0,
        pending(s) == Seq::<u8>::empty(),
    decreases s.len(),
{
    if s.len() == 0 {
        assert(decode_utf8(s) =~= Seq::<char>::empty());
        assert(pending(s) =~= Seq::<u8>::empty());
    } else {
        lemma_scan_scalar(s);
        lemma_scan_len(s);
        let n = length_of_first_scalar(s);
        let c = decode_first_scalar(s) as char;
        let rest = s.skip(n);
        assert(pop_first_scalar(s) == rest);
        lemma_decode_valid(rest);
        assert(decode_utf8(s) == seq![c] + decode_utf8(rest));
        assert(decode(s) == seq![Unit::Char(c)] + decode(rest));
        assert(decode(s).drop_first() =~= decode(rest));
    }
}

/// Chunk-boundary invariance: a well-formed text that arrives in two chunks,
/// cut at any byte, decodes to the characters of the whole text. No marker
/// stands among them and nothing stays pending.
pub proof fn lemma_cut_text_decodes_whole(a: Seq<u8>, b: Seq<u8>)
    requires
        valid_utf8(a + b),
    ensures
        text_of(decode(a) + decode(pending(a) + b)) == decode_utf8(a + b),
        markers_in(decode(a) + decode(pending(a) + b)) == 0,
        pending(pending(a) + b) == Seq::<u8>::empty(),
{
    lemma_decode_chunks(a, b);
    lemma_decode_valid(a + b);
}

/// One byte that belongs to no character, between two well-formed texts,
/// decodes to one marker between the characters of the two.
pub proof fn lemma_stray_byte_decodes_to_one_marker(a: Seq<u8>, x: u8, b: Seq<u8>)
    requires
        valid_utf8(a),
        valid_utf8(b),
        x >= 0x80,
    ensures
        decode_to_end(a + seq![x] + b) == (decode(a) + seq![Unit::Marker]) + decode(b),
        text_of(decode_to_end(a + seq![x] + b)) == decode_utf8(a) + decode_utf8(b),
        markers_in(decode_to_end(a + seq![x] + b)) == 1,
{
    let tail = seq![x] + b;
    assert(a + seq![x] + b =~= a + tail);
    lemma_decode_chunks(a, tail);
    lemma_decode_valid(a);
    lemma_decode_valid(b);
    assert(pending(a) + tail =~= tail);
    lemma_scan_len(tail);
    if b.len() == 0 {
        assert(tail =~= seq![x]);
        if scan(tail) == Scan::Incomplete {
            assert(decode(tail) =~= Seq::<Unit>::empty());
            assert(pending(tail) == tail);
            assert(decode(a).push(Unit::Marker) =~= (decode(a) + seq![Unit::Marker]) + decode(b));
        } else {
            assert(scan(tail) == Scan::Invalid(1));
            assert(tail.skip(1) =~= b);
            assert(decode(tail) =~= seq![Unit::Marker] + decode(b));
        }
    } else {
        lemma_scan_scalar(b);
        assert(tail[1] == b[0]);
        assert(scan(tail) == Scan::Invalid(1));
        assert(tail.skip(1) =~= b);
        assert(decode(tail) =~= seq![Unit::Marker] + decode(b));
    }
    assert(decode(a) + (seq![Unit::Marker] + decode(b)) =~= (decode(a) + seq![Unit::Marker])
        + decode(b));
    lemma_units_concat(decode(a) + seq![Unit::Marker], decode(b));
    lemma_units_concat(decode(a), seq![Unit::Marker]);
    assert(seq![Unit::Marker].drop_first() =~= Seq::<Unit>::empty());
    assert(text_of(seq![Unit::Marker]) =~= Seq::<char>::empty()) by {
        reveal_with_fuel(text_of, 2);
    }
    assert(markers_in(seq![Unit::Marker]) == 1) by {
        reveal_with_fuel(markers_in, 2);
    }
    assert(decode_utf8(a) + Seq::<char>::empty() =~= decode_utf8(a));
}

/// The bytes of chunks in a row.
pub open spec fn joined(chunks: Seq<Seq<u8>>) -> Seq<u8>
    decreases chunks.len(),
{
    if chunks.len() == 0 {
        seq![]
    } else {
        chunks[0] + joined(chunks.drop_first())
    }
}

/// What a decoder yields for chunks that arrive one after the other, when
/// `carry` is pending before the first: each chunk is decoded behind what
/// the chunks before it left pending.
pub open spec fn decode_chunked(carry: Seq<u8>, chunks: Seq<Seq<u8>>) -> Seq<Unit>
    decreases chunks.len(),
{
    if chunks.len() == 0 {
        seq![]
    } else {
        decode(carry + chunks[0]) + decode_chunked(
            pending(carry + chunks[0]),
            chunks.drop_first(),
        )
    }
}

/// What is pending behind chunks that arrive one after the other, when
/// `carry` is pending before the first.
pub open spec fn pending_chunked(carry: Seq<u8>, chunks: Seq<Seq<u8>>) -> Seq<u8>
    decreases chunks.len(),
{
    if chunks.len() == 0 {
        carry
    } else {
        pending_chunked(pending(carry + chunks[0]), chunks.drop_first())
    }
}

/// Chunk-boundary invariance: however a stream is cut into chunks, the
/// decoder yields the units of the whole stream, and holds at the end what
/// is pending of the whole.
pub proof fn lemma_chunking_is_invisible(carry: Seq<u8>, chunks: Seq<Seq<u8>>)
    requires
        pending(carry) == carry,
    ensures
        decode_chunked(carry, chunks) == decode(carry + joined(chunks)),
        pending_chunked(carry, chunks) == pending(carry + joined(chunks)),
    decreases chunks.len(),
{
    if chunks.len() == 0 {
        assert(carry + joined(chunks) =~= carry);
        lemma_pending_short(carry);
        assert(decode(carry) =~= Seq::<Unit>::empty());
    } else {
        let first = carry + chunks[0];
        let rest = chunks.drop_first();
        lemma_pending_twice(first);
        lemma_chunking_is_invisible(pending(first), rest);
        lemma_decode_chunks(first, joined(rest));
        assert(first + joined(rest) =~= carry + joined(chunks));
    }
}

/// What is pending has nothing decoded in front of it: it is all pending.
pub proof fn lemma_pending_twice(s: Seq<u8>)
    ensures
        pending(pending(s)) == pending(s),
{
    lemma_pending_short(s);
}

} // verus!
