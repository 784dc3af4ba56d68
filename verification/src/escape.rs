//! Recognition of terminal control sequences in a stream of characters.
//!
//! A control sequence begins with ESC. While one is open, the characters of
//! the text belong to it and are handed on as they are; the scanner follows
//! them only to find where the sequence ends.

use vstd::prelude::*;

verus! {

/// The escape character that opens every control sequence.
pub const ESC: char = '\u{1b}';

/// The bell character, one of the two ends of an operating system command.
pub const BEL: char = '\u{07}';

/// Where the scanner stands within a control sequence.
#[derive(Clone, Copy, PartialEq, Eq, Structural, Debug)]
pub enum EscapeState {
    /// Outside any sequence.
    Idle,
    /// Behind the ESC that opened a sequence.
    Start,
    /// Inside `ESC [ ...`, up to a final character in `@`..=`~`.
    Csi,
    /// Inside `ESC ] ...`, up to BEL or `ESC \`.
    Osc { saw_esc: bool },
    /// Inside `ESC P`, `ESC X`, `ESC ^` or `ESC _`, up to `ESC \`.
    StringTerm { saw_esc: bool },
    /// Behind an intermediate character; one more character ends the sequence.
    Fe,
}

impl EscapeState {
    /// True inside a control sequence.
    pub open spec fn active(self) -> bool {
        self != EscapeState::Idle
    }

    /// The state behind `ch`, for a character that arrives inside a sequence.
    /// Outside any sequence nothing moves: it is the ESC itself, not a
    /// transition on it, that opens one.
    pub open spec fn step(self, ch: char) -> EscapeState {
        match self {
            EscapeState::Idle => EscapeState::Idle,
            EscapeState::Start => {
                if ch == '[' {
                    EscapeState::Csi
                } else if ch == ']' {
                    EscapeState::Osc { saw_esc: false }
                } else if ch == 'P' || ch == 'X' || ch == '^' || ch == '_' {
                    EscapeState::StringTerm { saw_esc: false }
                } else if ' ' <= ch <= '/' {
                    EscapeState::Fe
                } else {
                    EscapeState::Idle
                }
            },
            EscapeState::Csi => {
                if '@' <= ch <= '~' {
                    EscapeState::Idle
                } else {
                    EscapeState::Csi
                }
            },
            EscapeState::Osc { saw_esc } => {
                if ch == BEL || (saw_esc && ch == '\\') {
                    EscapeState::Idle
                } else {
                    EscapeState::Osc { saw_esc: ch == ESC }
                }
            },
            EscapeState::StringTerm { saw_esc } => {
                if saw_esc && ch == '\\' {
                    EscapeState::Idle
                } else {
                    EscapeState::StringTerm { saw_esc: ch == ESC }
                }
            },
            EscapeState::Fe => EscapeState::Idle,
        }
    }

    /// The state behind `ch` for a scanner that reads every character of a
    /// text, and whether `ch` belongs to a control sequence.
    pub open spec fn feed(self, ch: char) -> (EscapeState, bool) {
        if self.active() {
            (self.step(ch), true)
        } else if ch == ESC {
            (EscapeState::Start, true)
        } else {
            (EscapeState::Idle, false)
        }
    }

    /// Says whether the scanner stands inside a control sequence.
    pub fn is_active(self) -> (active: bool)
        ensures
            active == self.active(),
    {
        !matches!(self, EscapeState::Idle)
    }

    /// Moves the scanner on by `ch`, a character that has arrived inside a
    /// control sequence.
    pub fn advance(&mut self, ch: char)
        ensures
            *final(self) == old(self).step(ch),
    {
        match *self {
            EscapeState::Idle => {},
            EscapeState::Start => {
                *self =
                if ch == '[' {
                    EscapeState::Csi
                } else if ch == ']' {
                    EscapeState::Osc { saw_esc: false }
                } else if ch == 'P' || ch == 'X' || ch == '^' || ch == '_' {
                    EscapeState::StringTerm { saw_esc: false }
                } else if ' ' <= ch && ch <= '/' {
                    EscapeState::Fe
                } else {
                    EscapeState::Idle
                };
            },
            EscapeState::Csi => {
                if '@' <= ch && ch <= '~' {
                    *self = EscapeState::Idle;
                }
            },
            EscapeState::Osc { saw_esc } => {
                if ch == BEL || (saw_esc && ch == '\\') {
                    *self = EscapeState::Idle;
                } else {
                    *self = EscapeState::Osc { saw_esc: ch == ESC };
                }
            },
            EscapeState::StringTerm { saw_esc } => {
                if saw_esc && ch == '\\' {
                    *self = EscapeState::Idle;
                } else {
                    *self = EscapeState::StringTerm { saw_esc: ch == ESC };
                }
            },
            EscapeState::Fe => {
                *self = EscapeState::Idle;
            },
        }
    }
}

/// No character beyond ASCII moves the scanner otherwise than any other.
pub proof fn lemma_step_beyond_ascii(state: EscapeState, a: char, b: char)
    requires
        a as u32 >= 0x80,
        b as u32 >= 0x80,
    ensures
        state.step(a) == state.step(b),
{
}

} // verus!
