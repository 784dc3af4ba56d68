//! Scanning of UTF-8 byte streams, one scalar at a time.
//!
//! The scanner looks at the bytes in front of it and says whether they begin
//! with a well-formed scalar, with an ill-formed sequence of a definite
//! length, or with the first bytes of a scalar whose rest has not arrived.

use vstd::prelude::*;
use vstd::utf8::*;

verus! {

/// What stands at the front of a byte sequence.
#[derive(Clone, Copy, PartialEq, Eq, Structural, Debug)]
pub enum Scan {
    /// A well-formed scalar of this many bytes.
    Scalar(usize),
    /// An ill-formed sequence of this many bytes; decoding resumes behind it.
    Invalid(usize),
    /// The bytes that are left, if any, begin a scalar and end before it does.
    Incomplete,
}

/// Number of bytes that a scalar with this first byte takes, or 0 where no
/// scalar begins with it.
pub open spec fn lead_width(b: u8) -> int {
    if b <= 0x7F {
        1
    } else if 0xC2 <= b <= 0xDF {
        2
    } else if 0xE0 <= b <= 0xEF {
        3
    } else if 0xF0 <= b <= 0xF4 {
        4
    } else {
        0
    }
}

/// True when `b` may follow the first byte `lead` of a scalar of two or more
/// bytes. The bounds are narrower than those of a continuation byte where an
/// overlong form, a surrogate or a value past U+10FFFF would result.
pub open spec fn second_fits(lead: u8, b: u8) -> bool {
    if lead == 0xE0 {
        0xA0 <= b <= 0xBF
    } else if lead == 0xED {
        0x80 <= b <= 0x9F
    } else if lead == 0xF0 {
        0x90 <= b <= 0xBF
    } else if lead == 0xF4 {
        0x80 <= b <= 0x8F
    } else {
        is_continuation_byte(b)
    }
}

/// Classification of the front of `s`.
pub open spec fn scan(s: Seq<u8>) -> Scan {
    if s.len() == 0 {
        Scan::Incomplete
    } else if lead_width(s[0]) == 0 {
        Scan::Invalid(1)
    } else if lead_width(s[0]) == 1 {
        Scan::Scalar(1)
    } else if s.len() < 2 {
        Scan::Incomplete
    } else if !second_fits(s[0], s[1]) {
        Scan::Invalid(1)
    } else if lead_width(s[0]) == 2 {
        Scan::Scalar(2)
    } else if s.len() < 3 {
        Scan::Incomplete
    } else if !is_continuation_byte(s[2]) {
        Scan::Invalid(2)
    } else if lead_width(s[0]) == 3 {
        Scan::Scalar(3)
    } else if s.len() < 4 {
        Scan::Incomplete
    } else if !is_continuation_byte(s[3]) {
        Scan::Invalid(3)
    } else {
        Scan::Scalar(4)
    }
}

proof fn lemma_two_byte_form(b0: u8, b1: u8)
    by (bit_vector)
    requires
        0xC0 <= b0 <= 0xDF,
        0x80 <= b1 <= 0xBF,
    ensures
        codepoint_width_2(b0, b1) <= 0x7FF,
        0x80 <= codepoint_width_2(b0, b1) <==> 0xC2 <= b0,
{
}

proof fn lemma_three_byte_form(b0: u8, b1: u8, b2: u8)
    by (bit_vector)
    requires
        0xE0 <= b0 <= 0xEF,
        0x80 <= b1 <= 0xBF,
        0x80 <= b2 <= 0xBF,
    ensures
        codepoint_width_3(b0, b1, b2) <= 0xFFFF,
        0x800 <= codepoint_width_3(b0, b1, b2) <==> (b0 == 0xE0 ==> 0xA0 <= b1),
        0xD800 <= codepoint_width_3(b0, b1, b2) <= 0xDFFF <==> (b0 == 0xED && 0xA0 <= b1),
{
}

proof fn lemma_four_byte_form(b0: u8, b1: u8, b2: u8, b3: u8)
    by (bit_vector)
    requires
        0xF0 <= b0 <= 0xF7,
        0x80 <= b1 <= 0xBF,
        0x80 <= b2 <= 0xBF,
        0x80 <= b3 <= 0xBF,
    ensures
        0x10000 <= codepoint_width_4(b0, b1, b2, b3) <==> (b0 == 0xF0 ==> 0x90 <= b1),
        codepoint_width_4(b0, b1, b2, b3) <= 0x10FFFF <==> (b0 <= 0xF3 || (b0 == 0xF4 && b1
            <= 0x8F)),
{
}

/// The scanner finds a scalar exactly where one is well-formed, and with its
/// length.
pub proof fn lemma_scan_scalar(s: Seq<u8>)
    ensures
        valid_first_scalar(s) <==> scan(s) is Scalar,
        valid_first_scalar(s) ==> scan(s) == Scan::Scalar(length_of_first_scalar(s) as usize),
{
    if s.len() >= 2 && 0xC0 <= s[0] <= 0xDF && is_continuation_byte(s[1]) {
        lemma_two_byte_form(s[0], s[1]);
    }
    if s.len() >= 3 && 0xE0 <= s[0] <= 0xEF && is_continuation_byte(s[1]) && is_continuation_byte(
        s[2],
    ) {
        lemma_three_byte_form(s[0], s[1], s[2]);
    }
    if s.len() >= 4 && 0xF0 <= s[0] <= 0xF7 && is_continuation_byte(s[1]) && is_continuation_byte(
        s[2],
    ) && is_continuation_byte(s[3]) {
        lemma_four_byte_form(s[0], s[1], s[2], s[3]);
    }
}

proof fn lemma_one_byte_form(b0: u8)
    by (bit_vector)
    requires
        b0 <= 0x7F,
    ensures
        codepoint_width_1(b0) == b0 as u32,
{
}

/// The character of a scalar that the scanner has found: its UTF-8 form is
/// the bytes that were scanned, and it is an ASCII character exactly where
/// the first byte is one, which is then its code.
pub proof fn lemma_scalar_front(s: Seq<u8>, n: usize)
    requires
        scan(s) == Scan::Scalar(n),
    ensures
        1 <= n <= 4,
        n <= s.len(),
        s.subrange(0, n as int) == encode_scalar((decode_first_scalar(s) as char) as u32),
        s[0] <= 0x7F ==> (decode_first_scalar(s) as char) as u32 == s[0],
        s[0] > 0x7F ==> (decode_first_scalar(s) as char) as u32 >= 0x80,
{
    lemma_scan_scalar(s);
    lemma_scan_len(s);
    let front = s.subrange(0, n as int);
    assert(valid_first_scalar(front));
    assert(pop_first_scalar(front) =~= Seq::<u8>::empty());
    assert(valid_utf8(front)) by {
        reveal_with_fuel(valid_utf8, 2);
    }
    decode_utf8_first_scalar(front);
    assert(take_first_scalar(front) =~= front);
    assert(decode_first_scalar(front) == decode_first_scalar(s));
    let cp = decode_first_scalar(s);
    if n == 1 {
        lemma_one_byte_form(s[0]);
    } else if n == 2 {
        lemma_two_byte_form(s[0], s[1]);
    } else if n == 3 {
        lemma_three_byte_form(s[0], s[1], s[2]);
    } else {
        lemma_four_byte_form(s[0], s[1], s[2], s[3]);
    }
    assert(is_scalar(cp));
    assert((cp as char) as u32 == cp);
}

/// A scalar or an ill-formed sequence that the scanner has found stays what
/// it is when more bytes arrive behind it.
pub proof fn lemma_scan_stable(s: Seq<u8>, more: Seq<u8>)
    requires
        scan(s) != Scan::Incomplete,
    ensures
        scan(s + more) == scan(s),
{
    let t = s + more;
    assert(forall|i: int| 0 <= i < s.len() ==> t[i] == s[i]);
}

/// Length of what the scanner found, which is never more than what is there.
pub proof fn lemma_scan_len(s: Seq<u8>)
    ensures
        match scan(s) {
            Scan::Scalar(n) => 1 <= n <= 4 && n <= s.len(),
            Scan::Invalid(n) => 1 <= n <= 3 && n <= s.len(),
            Scan::Incomplete => s.len() <= 3,
        },
{
}

/// Classifies what stands at offset `at` of `bytes`.
pub fn scan_at(bytes: &[u8], at: usize) -> (found: Scan)
    requires
        at <= bytes.len(),
    ensures
        found == scan(bytes@.subrange(at as int, bytes.len() as int)),
{
    let ghost rest = bytes@.subrange(at as int, bytes.len() as int);
    let left: usize = bytes.len() - at;
    if left == 0 {
        return Scan::Incomplete;
    }
    let lead: u8 = bytes[at];
    assert(rest[0] == lead);
    let width: usize = if lead <= 0x7F {
        1
    } else if 0xC2 <= lead && lead <= 0xDF {
        2
    } else if 0xE0 <= lead && lead <= 0xEF {
        3
    } else if 0xF0 <= lead && lead <= 0xF4 {
        4
    } else {
        0
    };
    if width == 0 {
        return Scan::Invalid(1);
    }
    if width == 1 {
        return Scan::Scalar(1);
    }
    if left < 2 {
        return Scan::Incomplete;
    }
    let second: u8 = bytes[at + 1];
    assert(rest[1] == second);
    let fits: bool = if lead == 0xE0 {
        0xA0 <= second && second <= 0xBF
    } else if lead == 0xED {
        0x80 <= second && second <= 0x9F
    } else if lead == 0xF0 {
        0x90 <= second && second <= 0xBF
    } else if lead == 0xF4 {
        0x80 <= second && second <= 0x8F
    } else {
        0x80 <= second && second <= 0xBF
    };
    if !fits {
        return Scan::Invalid(1);
    }
    if width == 2 {
        return Scan::Scalar(2);
    }
    if left < 3 {
        return Scan::Incomplete;
    }
    let third: u8 = bytes[at + 2];
    assert(rest[2] == third);
    if !(0x80 <= third && third <= 0xBF) {
        return Scan::Invalid(2);
    }
    if width == 3 {
        return Scan::Scalar(3);
    }
    if left < 4 {
        return Scan::Incomplete;
    }
    let fourth: u8 = bytes[at + 3];
    assert(rest[3] == fourth);
    if !(0x80 <= fourth && fourth <= 0xBF) {
        return Scan::Invalid(3);
    }
    Scan::Scalar(4)
}

/// Writes the UTF-8 form of `ch` to the front of `dst`, and returns its
/// length.
pub fn encode_char(ch: char, dst: &mut [u8]) -> (len: usize)
    requires
        old(dst).len() >= encode_scalar(ch as u32).len(),
    ensures
        1 <= len <= 4,
        len == encode_scalar(ch as u32).len(),
        final(dst)@.len() == old(dst)@.len(),
        final(dst)@.subrange(0, len as int) == encode_scalar(ch as u32),
        forall|i: int| len <= i < old(dst)@.len() ==> final(dst)@[i] == old(dst)@[i],
{
    let code: u32 = ch as u32;
    proof {
        char_is_scalar(ch);
    }
    if code <= 0x7F {
        assert(code & 0x7F < 256) by (bit_vector);
        dst[0] = (code & 0x7F) as u8;
        assert(dst@.subrange(0, 1) =~= encode_scalar(code));
        1
    } else if code <= 0x7FF {
        assert((code >> 6) & 0x1F < 256 && code & 0x3F < 256) by (bit_vector);
        dst[0] = 0xC0 | ((code >> 6) & 0x1F) as u8;
        dst[1] = 0x80 | (code & 0x3F) as u8;
        assert(dst@.subrange(0, 2) =~= encode_scalar(code));
        2
    } else if code <= 0xFFFF {
        assert((code >> 12) & 0x0F < 256 && (code >> 6) & 0x3F < 256 && code & 0x3F < 256)
            by (bit_vector);
        dst[0] = 0xE0 | ((code >> 12) & 0x0F) as u8;
        dst[1] = 0x80 | ((code >> 6) & 0x3F) as u8;
        dst[2] = 0x80 | (code & 0x3F) as u8;
        assert(dst@.subrange(0, 3) =~= encode_scalar(code));
        3
    } else {
        assert((code >> 18) & 0x7 < 256 && (code >> 12) & 0x3F < 256 && (code >> 6) & 0x3F < 256
            && code & 0x3F < 256) by (bit_vector);
        dst[0] = 0xF0 | ((code >> 18) & 0x7) as u8;
        dst[1] = 0x80 | ((code >> 12) & 0x3F) as u8;
        dst[2] = 0x80 | ((code >> 6) & 0x3F) as u8;
        dst[3] = 0x80 | (code & 0x3F) as u8;
        assert(dst@.subrange(0, 4) =~= encode_scalar(code));
        4
    }
}

} // verus!
