//! Small rules of the command line: reading a number, choosing the seed of
//! the rainbow, wording the failure to open a file.

use vstd::prelude::*;
use vstd::string::StringExecFns;
use vstd::utf8::encode_utf8;

verus! {

/// True for the ASCII code of a decimal digit.
pub open spec fn is_digit(b: u8) -> bool {
    0x30 <= b <= 0x39
}

/// True when all of `s` are decimal digits.
pub open spec fn all_digits(s: Seq<u8>) -> bool {
    forall|i: int| 0 <= i < s.len() ==> is_digit(#[trigger] s[i])
}

/// The number that the decimal digits `s` write.
pub open spec fn digits_value(s: Seq<u8>) -> nat
    decreases s.len(),
{
    if s.len() == 0 {
        0
    } else {
        10 * digits_value(s.drop_last()) + (s.last() - 0x30) as nat
    }
}

/// The digits of a number that may have a plus sign in front.
pub open spec fn unsigned_body(s: Seq<u8>) -> Seq<u8> {
    if s.len() > 0 && s[0] == 0x2B {
        s.skip(1)
    } else {
        s
    }
}

/// The number that `s` writes: decimal digits, at least one, with at most a
/// plus sign in front, and a value that a `u64` holds.
pub open spec fn parsed_u64(s: Seq<u8>) -> Option<u64> {
    let body = unsigned_body(s);
    if body.len() > 0 && all_digits(body) && digits_value(body) <= u64::MAX {
        Some(digits_value(body) as u64)
    } else {
        None
    }
}

/// More digits make no smaller number.
proof fn lemma_digits_grow(s: Seq<u8>, k: int)
    requires
        0 <= k <= s.len(),
        all_digits(s),
    ensures
        digits_value(s.take(k)) <= digits_value(s),
    decreases s.len() - k,
{
    if k == s.len() {
        assert(s.take(k) =~= s);
    } else {
        lemma_digits_grow(s.drop_last(), k);
        assert(all_digits(s.drop_last())) by {
            assert forall|i: int| 0 <= i < s.drop_last().len() implies is_digit(
                #[trigger] s.drop_last()[i],
            ) by {
                assert(s.drop_last()[i] == s[i]);
            }
        }
        assert(s.drop_last().take(k) =~= s.take(k));
        assert(is_digit(s[s.len() - 1]));
    }
}

/// Reads the decimal number that `bytes` write.
fn parse_decimal(bytes: &[u8]) -> (parsed: Option<u64>)
    ensures
        parsed == parsed_u64(bytes@),
{
    let start: usize = if bytes.len() > 0 && bytes[0] == 0x2B {
        1
    } else {
        0
    };
    let ghost body = unsigned_body(bytes@);
    assert(bytes@.skip(0) =~= bytes@);
    assert(body == bytes@.skip(start as int));
    if start == bytes.len() {
        return None;
    }
    let mut acc: u64 = 0;
    let mut i: usize = start;
    assert(body.take(0) =~= Seq::<u8>::empty());
    while i < bytes.len()
        invariant
            start <= i <= bytes.len(),
            body == bytes@.skip(start as int),
            body == unsigned_body(bytes@),
            all_digits(body.take(i - start)),
            acc == digits_value(body.take(i - start)),
        decreases bytes.len() - i,
    {
        let b: u8 = bytes[i];
        let ghost seen = body.take(i - start);
        let ghost next = body.take(i - start + 1);
        proof {
            assert(next.drop_last() =~= seen);
            assert(next.last() == b);
            assert(body[i - start] == b);
        }
        if !(0x30 <= b && b <= 0x39) {
            assert(!is_digit(body[i - start]));
            return None;
        }
        assert(all_digits(next)) by {
            assert forall|j: int| 0 <= j < next.len() implies is_digit(#[trigger] next[j]) by {
                if j < seen.len() {
                    assert(next[j] == seen[j]);
                }
            }
        }
        let digit: u64 = (b - 0x30) as u64;
        assert(digits_value(next) == 10 * acc + digit);
        let grown = match acc.checked_mul(10) {
            Some(tens) => tens.checked_add(digit),
            None => None,
        };
        match grown {
            Some(value) => {
                acc = value;
            },
            None => {
                proof {
                    assert(digits_value(next) > u64::MAX);
                    if all_digits(body) {
                        lemma_digits_grow(body, i - start + 1);
                        assert(digits_value(body) > u64::MAX);
                    }
                }
                return None;
            },
        }
        i += 1;
    }
    assert(body.take(i - start) =~= body);
    Some(acc)
}

/// Reads the value of a numeric option. What is no decimal number that a
/// `u64` holds is refused, with a message that names the option and quotes
/// the value.
pub fn parse_u64_value(name: &str, value: String) -> (parsed: Result<u64, String>)
    ensures
        match parsed_u64(encode_utf8(value@)) {
            Some(n) => parsed == Ok::<u64, String>(n),
            None => parsed matches Err(message) && message@ == "invalid value for --"@ + name@
                + ": '"@ + value@ + "'"@,
        },
{
    match parse_decimal(value.as_str().as_bytes()) {
        Some(n) => Ok(n),
        None => {
            let mut message = String::from_str("invalid value for --");
            message.append(name);
            message.append(": '");
            message.append(value.as_str());
            message.append("'");
            Err(message)
        },
    }
}

/// The row at which a rainbow without a seed begins: the time since the
/// epoch in nanoseconds, taken modulo `range`, or 0 where the clock stands
/// before the epoch.
pub fn random_seed_offset(range: u64, nanos: Option<u128>) -> (offset: u64)
    requires
        range > 0,
    ensures
        offset == match nanos {
            Some(t) => t % (range as u128),
            None => 0,
        },
        offset < range,
{
    match nanos {
        Some(t) => (t % (range as u128)) as u64,
        None => 0,
    }
}

/// The row at which the rainbow begins: the seed modulo 256, or a row that
/// the clock picks where the seed is 0.
pub fn initial_offset(seed: u64, nanos: Option<u128>) -> (offset: u64)
    ensures
        offset == if seed != 0 {
            seed % 256
        } else {
            match nanos {
                Some(t) => (t % 256) as u64,
                None => 0,
            }
        },
        offset < 256,
{
    if seed == 0 {
        random_seed_offset(256, nanos)
    } else {
        seed % 256
    }
}

/// Why a file could not be opened.
#[derive(Clone, Copy, PartialEq, Eq, Structural, Debug)]
pub enum OpenFailure {
    NotFound,
    PermissionDenied,
    /// Any other reason, with the error number of the operating system where
    /// there is one.
    Other(Option<i32>),
}

/// The words for a failure. Three error numbers have words of their own;
/// any other failure is worded by `detail`.
pub open spec fn reason(failure: OpenFailure, detail: Seq<char>) -> Seq<char> {
    match failure {
        OpenFailure::NotFound => "No such file or directory"@,
        OpenFailure::PermissionDenied => "Permission denied"@,
        OpenFailure::Other(Some(21)) => "Is a directory"@,
        OpenFailure::Other(Some(25)) => "Inappropriate ioctl for device"@,
        OpenFailure::Other(Some(6)) => "Is not a regular file"@,
        OpenFailure::Other(_) => detail,
    }
}

/// The line that reports that the file `path` could not be opened.
pub fn describe_error(path: &str, failure: OpenFailure, detail: &str) -> (message: String)
    ensures
        message@ == "lolcat: "@ + path@ + ": "@ + reason(failure, detail@),
{
    let mut message = String::from_str("lolcat: ");
    message.append(path);
    message.append(": ");
    match failure {
        OpenFailure::NotFound => message.append("No such file or directory"),
        OpenFailure::PermissionDenied => message.append("Permission denied"),
        OpenFailure::Other(code) => match code {
            Some(21) => message.append("Is a directory"),
            Some(25) => message.append("Inappropriate ioctl for device"),
            Some(6) => message.append("Is not a regular file"),
            _ => message.append(detail),
        },
    }
    message
}

} // verus!
