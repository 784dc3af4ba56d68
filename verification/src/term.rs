//! What the environment says of the terminal's colours.

use vstd::prelude::*;
use vstd::string::StringSliceAdditionalSpecFns;
use crate::plan::ColorMode;

verus! {

/// The lower-case form of an ASCII letter; any other byte as it is.
pub open spec fn lower(b: u8) -> u8 {
    if 0x41 <= b <= 0x5A {
        (b + 0x20) as u8
    } else {
        b
    }
}

/// True when `word` stands in `text` at offset `at`, whatever the case of
/// the letters of `text`.
pub open spec fn stands_at(text: Seq<u8>, at: int, word: Seq<u8>) -> bool {
    &&& 0 <= at
    &&& at + word.len() <= text.len()
    &&& forall|j: int| 0 <= j < word.len() ==> lower(#[trigger] text[at + j]) == word[j]
}

/// True when `word` stands somewhere in `text`, whatever the case of the
/// letters of `text`.
pub open spec fn mentions(text: Seq<u8>, word: Seq<u8>) -> bool {
    exists|at: int| stands_at(text, at, word)
}

/// The bytes of `truecolor`.
pub open spec fn truecolor_word() -> Seq<u8> {
    seq![0x74u8, 0x72u8, 0x75u8, 0x65u8, 0x63u8, 0x6Fu8, 0x6Cu8, 0x6Fu8, 0x72u8]
}

/// The bytes of `24bit`.
pub open spec fn deep_word() -> Seq<u8> {
    seq![0x32u8, 0x34u8, 0x62u8, 0x69u8, 0x74u8]
}

/// True when `word` stands in `text` at offset `at`.
fn word_at(text: &[u8], at: usize, word: &[u8]) -> (found: bool)
    requires
        at + word.len() <= text.len(),
    ensures
        found == stands_at(text@, at as int, word@),
{
    let mut j: usize = 0;
    while j < word.len()
        invariant
            j <= word.len(),
            at + word.len() <= text.len(),
            forall|i: int| 0 <= i < j ==> lower(#[trigger] text@[at + i]) == word@[i],
        decreases word.len() - j,
    {
        let b: u8 = text[at + j];
        let low: u8 = if 0x41 <= b && b <= 0x5A {
            b + 0x20
        } else {
            b
        };
        if low != word[j] {
            return false;
        }
        j += 1;
    }
    true
}

/// True when `word` stands somewhere in `text`.
fn mentions_word(text: &[u8], word: &[u8]) -> (found: bool)
    ensures
        found == mentions(text@, word@),
{
    if word.len() > text.len() {
        return false;
    }
    let last: usize = text.len() - word.len();
    let mut at: usize = 0;
    while at <= last
        invariant
            at <= last + 1,
            last == text.len() - word.len(),
            forall|i: int| 0 <= i < at ==> !stands_at(text@, i, word@),
        decreases last + 1 - at,
    {
        if word_at(text, at, word) {
            return true;
        }
        at += 1;
    }
    false
}

/// True when the terminal announces 24-bit colour: the value of `COLORTERM`
/// holds `truecolor` or `24bit`, in letters of any case.
pub fn detects_truecolor_from(term: Option<&str>) -> (found: bool)
    ensures
        found == (term matches Some(value) && (mentions(value.spec_bytes(), truecolor_word())
            || mentions(value.spec_bytes(), deep_word()))),
{
    match term {
        Some(value) => {
            let bytes: &[u8] = value.as_bytes();
            let truecolor: [u8; 9] = [0x74, 0x72, 0x75, 0x65, 0x63, 0x6F, 0x6C, 0x6F, 0x72];
            let deep: [u8; 5] = [0x32, 0x34, 0x62, 0x69, 0x74];
            assert(truecolor@ =~= truecolor_word());
            assert(deep@ =~= deep_word());
            mentions_word(bytes, &truecolor) || mentions_word(bytes, &deep)
        },
        None => false,
    }
}

/// The colour mode of a run: 24-bit where it is asked for or where the
/// terminal announces it, the palette of 256 colours otherwise.
pub fn choose_color_mode_from(truecolor: bool, env_term: Option<&str>) -> (mode: ColorMode)
    ensures
        mode == if truecolor || (env_term matches Some(value) && (mentions(
            value.spec_bytes(),
            truecolor_word(),
        ) || mentions(value.spec_bytes(), deep_word()))) {
            ColorMode::TrueColor
        } else {
            ColorMode::Ansi256
        },
{
    if truecolor || detects_truecolor_from(env_term) {
        ColorMode::TrueColor
    } else {
        ColorMode::Ansi256
    }
}

} // verus!
