use lolcat::buffer::{SmallBuf, PENDING_CAP};
use lolcat::escape::EscapeState;
use lolcat::outcome::{
    after_finalize, after_open_failure, after_source, classify, exit_code, Failure, RunStatus, Step,
};
use lolcat::pace::Pacer;
use lolcat::utf8::{encode_char, scan_at, Scan};

fn walk(text: &str) -> Vec<EscapeState> {
    let mut state = EscapeState::Start;
    let mut seen = Vec::new();
    for ch in text.chars() {
        state.advance(ch);
        seen.push(state);
    }
    seen
}

#[test]
fn escape_state_is_active_everywhere_but_idle() {
    assert!(!EscapeState::Idle.is_active());
    assert!(EscapeState::Start.is_active());
    assert!(EscapeState::Csi.is_active());
    assert!(EscapeState::Osc { saw_esc: false }.is_active());
    assert!(EscapeState::StringTerm { saw_esc: true }.is_active());
    assert!(EscapeState::Fe.is_active());
}

#[test]
fn idle_state_does_not_move() {
    for ch in ['\u{1b}', '[', 'a', '\u{7}'] {
        let mut state = EscapeState::Idle;
        state.advance(ch);
        assert_eq!(state, EscapeState::Idle);
    }
}

#[test]
fn csi_runs_to_its_final_character() {
    assert_eq!(
        walk("[1;31m"),
        vec![
            EscapeState::Csi,
            EscapeState::Csi,
            EscapeState::Csi,
            EscapeState::Csi,
            EscapeState::Csi,
            EscapeState::Idle
        ]
    );
    assert_eq!(walk("[@"), vec![EscapeState::Csi, EscapeState::Idle]);
    assert_eq!(walk("[~"), vec![EscapeState::Csi, EscapeState::Idle]);
    assert_eq!(walk("[?"), vec![EscapeState::Csi, EscapeState::Csi]);
    assert_eq!(walk("[\u{7f}"), vec![EscapeState::Csi, EscapeState::Csi]);
}

#[test]
fn osc_ends_with_bel_or_string_terminator() {
    assert_eq!(
        walk("]a\u{7}"),
        vec![
            EscapeState::Osc { saw_esc: false },
            EscapeState::Osc { saw_esc: false },
            EscapeState::Idle
        ]
    );
    assert_eq!(
        walk("]\u{1b}\\"),
        vec![
            EscapeState::Osc { saw_esc: false },
            EscapeState::Osc { saw_esc: true },
            EscapeState::Idle
        ]
    );
    assert_eq!(
        walk("]\\\u{1b}x\\"),
        vec![
            EscapeState::Osc { saw_esc: false },
            EscapeState::Osc { saw_esc: false },
            EscapeState::Osc { saw_esc: true },
            EscapeState::Osc { saw_esc: false },
            EscapeState::Osc { saw_esc: false }
        ]
    );
}

#[test]
fn string_sequences_end_with_string_terminator_only() {
    for opener in ['P', 'X', '^', '_'] {
        let text: String = [opener, '\u{7}', '\u{1b}', '\\'].iter().collect();
        assert_eq!(
            walk(&text),
            vec![
                EscapeState::StringTerm { saw_esc: false },
                EscapeState::StringTerm { saw_esc: false },
                EscapeState::StringTerm { saw_esc: true },
                EscapeState::Idle
            ]
        );
    }
}

#[test]
fn intermediate_character_takes_one_more() {
    assert_eq!(walk("(B"), vec![EscapeState::Fe, EscapeState::Idle]);
    assert_eq!(walk(" x"), vec![EscapeState::Fe, EscapeState::Idle]);
    assert_eq!(walk("/\u{e9}"), vec![EscapeState::Fe, EscapeState::Idle]);
}

#[test]
fn any_other_character_ends_the_escape_at_once() {
    for ch in ['7', 'c', '0', '\u{1b}', '\u{e9}', '\u{1f}'] {
        let mut state = EscapeState::Start;
        state.advance(ch);
        assert_eq!(state, EscapeState::Idle, "{:?}", ch);
    }
}

#[test]
fn small_buf_gathers_short_writes() {
    let mut buf = SmallBuf::new();
    let mut sink = Vec::new();
    buf.push(&mut sink, b"abc");
    buf.push(&mut sink, b"");
    buf.push(&mut sink, b"def");
    assert!(sink.is_empty());
    buf.flush(&mut sink);
    assert_eq!(sink, b"abcdef".to_vec());
    buf.flush(&mut sink);
    assert_eq!(sink, b"abcdef".to_vec());
}

#[test]
fn small_buf_flushes_before_it_overflows() {
    let mut buf = SmallBuf::new();
    let mut sink = Vec::new();
    let first = vec![1u8; PENDING_CAP - 1];
    buf.push(&mut sink, &first);
    assert!(sink.is_empty());
    buf.push(&mut sink, &[2]);
    assert!(sink.is_empty());
    buf.push(&mut sink, &[3]);
    let mut expected = first.clone();
    expected.push(2);
    assert_eq!(sink, expected);
    buf.flush(&mut sink);
    expected.push(3);
    assert_eq!(sink, expected);
}

#[test]
fn small_buf_hands_a_large_chunk_on_at_once() {
    let mut buf = SmallBuf::new();
    let mut sink = Vec::new();
    buf.push(&mut sink, b"ab");
    let large = vec![9u8; PENDING_CAP + 1];
    buf.push(&mut sink, &large);
    let mut expected = b"ab".to_vec();
    expected.extend_from_slice(&large);
    assert_eq!(sink, expected);
    buf.flush(&mut sink);
    assert_eq!(sink, expected);
}

#[test]
fn small_buf_holds_a_chunk_of_its_own_size() {
    let mut buf = SmallBuf::new();
    let mut sink = Vec::new();
    let full = vec![5u8; PENDING_CAP];
    buf.push(&mut sink, &full);
    assert!(sink.is_empty());
    buf.push(&mut sink, b"x");
    assert_eq!(sink, full);
    buf.push(&mut sink, &full);
    let mut expected = full.clone();
    expected.push(b'x');
    assert_eq!(sink, expected);
    buf.flush(&mut sink);
    expected.extend_from_slice(&full);
    assert_eq!(sink, expected);
}

#[test]
fn scan_finds_scalars_of_every_length() {
    let text = "a\u{e9}\u{20ac}\u{1f308}".as_bytes();
    assert_eq!(scan_at(text, 0), Scan::Scalar(1));
    assert_eq!(scan_at(text, 1), Scan::Scalar(2));
    assert_eq!(scan_at(text, 3), Scan::Scalar(3));
    assert_eq!(scan_at(text, 6), Scan::Scalar(4));
    assert_eq!(scan_at(text, 10), Scan::Incomplete);
}

#[test]
fn scan_tells_ill_formed_from_unfinished() {
    assert_eq!(scan_at(&[0x80], 0), Scan::Invalid(1));
    assert_eq!(scan_at(&[0xC0, 0x80], 0), Scan::Invalid(1));
    assert_eq!(scan_at(&[0xC1, 0xBF], 0), Scan::Invalid(1));
    assert_eq!(scan_at(&[0xF5, 0x80, 0x80, 0x80], 0), Scan::Invalid(1));
    assert_eq!(scan_at(&[0xFF], 0), Scan::Invalid(1));
    assert_eq!(scan_at(&[0xC3], 0), Scan::Incomplete);
    assert_eq!(scan_at(&[0xC3, b'a'], 0), Scan::Invalid(1));
    assert_eq!(scan_at(&[0xE0, 0x9F, 0x80], 0), Scan::Invalid(1));
    assert_eq!(scan_at(&[0xE0, 0xA0], 0), Scan::Incomplete);
    assert_eq!(scan_at(&[0xE0, 0xA0, b'a'], 0), Scan::Invalid(2));
    assert_eq!(scan_at(&[0xED, 0xA0, 0x80], 0), Scan::Invalid(1));
    assert_eq!(scan_at(&[0xED, 0x9F, 0xBF], 0), Scan::Scalar(3));
    assert_eq!(scan_at(&[0xF0, 0x8F, 0x80, 0x80], 0), Scan::Invalid(1));
    assert_eq!(scan_at(&[0xF0, 0x90, 0x80], 0), Scan::Incomplete);
    assert_eq!(scan_at(&[0xF0, 0x90, 0x80, b'a'], 0), Scan::Invalid(3));
    assert_eq!(scan_at(&[0xF4, 0x90, 0x80, 0x80], 0), Scan::Invalid(1));
    assert_eq!(scan_at(&[0xF4, 0x8F, 0xBF, 0xBF], 0), Scan::Scalar(4));
    assert_eq!(scan_at(&[b'a', 0xE2, 0x82], 1), Scan::Incomplete);
}

#[test]
fn scan_agrees_with_the_standard_decoder() {
    for a in [0x00u8, 0x41, 0x7F, 0x80, 0xBF, 0xC2, 0xDF, 0xE0, 0xED, 0xEF, 0xF0, 0xF4, 0xF5] {
        for b in [0x00u8, 0x7F, 0x80, 0x8F, 0x90, 0x9F, 0xA0, 0xBF, 0xC0] {
            for c in [0x41u8, 0x80, 0xBF, 0xC0] {
                for d in [0x41u8, 0x80, 0xBF] {
                    let bytes = [a, b, c, d];
                    let expected = match std::str::from_utf8(&bytes) {
                        Ok(_) => Scan::Scalar(
                            std::str::from_utf8(&bytes)
                                .unwrap()
                                .chars()
                                .next()
                                .unwrap()
                                .len_utf8(),
                        ),
                        Err(err) if err.valid_up_to() > 0 => Scan::Scalar(
                            std::str::from_utf8(&bytes[..err.valid_up_to()])
                                .unwrap()
                                .chars()
                                .next()
                                .unwrap()
                                .len_utf8(),
                        ),
                        Err(err) => match err.error_len() {
                            Some(len) => Scan::Invalid(len),
                            None => Scan::Incomplete,
                        },
                    };
                    assert_eq!(scan_at(&bytes, 0), expected, "{:x?}", bytes);
                }
            }
        }
    }
}

#[test]
fn encode_char_writes_the_utf8_form() {
    for ch in ['\0', 'a', '\u{7f}', '\u{80}', '\u{7ff}', '\u{800}', '\u{d7ff}', '\u{e000}', '\u{fffd}', '\u{ffff}', '\u{10000}', '\u{10ffff}'] {
        let mut buf = [0u8; 4];
        let len = encode_char(ch, &mut buf);
        let mut expected = [0u8; 4];
        let text = ch.encode_utf8(&mut expected);
        assert_eq!(&buf[..len], text.as_bytes(), "{:?}", ch);
    }
}

#[test]
fn frame_is_due_one_frame_time_after_the_last() {
    let mut pacer = Pacer::new(50, 1_000);
    assert_eq!(pacer.pause(1_010), 40);
    assert_eq!(pacer.deadline, 1_050);
    assert_eq!(pacer.pause(1_060), 40);
    assert_eq!(pacer.deadline, 1_100);
    assert_eq!(pacer.pause(1_100), 50);
    assert_eq!(pacer.deadline, 1_150);
}

#[test]
fn late_frame_is_shown_at_once_and_not_made_up_for() {
    let mut pacer = Pacer::new(50, 0);
    assert_eq!(pacer.pause(50), 0);
    assert_eq!(pacer.deadline, 50);
    assert_eq!(pacer.pause(500), 0);
    assert_eq!(pacer.deadline, 500);
    assert_eq!(pacer.pause(510), 40);
    assert_eq!(pacer.deadline, 550);
    pacer.begin(2_000);
    assert_eq!(pacer.pause(2_001), 49);
    let mut far = Pacer::new(u64::MAX, 10);
    assert_eq!(far.pause(20), u64::MAX - 20);
    assert_eq!(far.deadline, u64::MAX);
}

#[test]
fn broken_pipe_ends_the_run_well() {
    assert_eq!(classify(true), Failure::BrokenPipe);
    assert_eq!(classify(false), Failure::Io);
    assert_eq!(after_source(Ok(())), Step::Continue);
    assert_eq!(
        after_source(Err(Failure::BrokenPipe)),
        Step::End(RunStatus::BrokenPipe)
    );
    assert_eq!(after_source(Err(Failure::Io)), Step::CleanUp(RunStatus::Io));
    assert_eq!(after_open_failure(), Step::CleanUp(RunStatus::Reported));
    assert_eq!(after_finalize(Ok(())), RunStatus::Success);
    assert_eq!(after_finalize(Err(Failure::BrokenPipe)), RunStatus::BrokenPipe);
    assert_eq!(after_finalize(Err(Failure::Io)), RunStatus::Io);
    assert_eq!(exit_code(RunStatus::Success), 0);
    assert_eq!(exit_code(RunStatus::BrokenPipe), 0);
    assert_eq!(exit_code(RunStatus::Reported), 1);
    assert_eq!(exit_code(RunStatus::Io), 1);
}

#[test]
fn encode_char_needs_no_more_room_than_the_form() {
    let mut one = [0u8; 1];
    assert_eq!(encode_char('a', &mut one), 1);
    assert_eq!(one, [b'a']);
    let mut three = [0u8; 3];
    assert_eq!(encode_char('\u{20ac}', &mut three), 3);
    assert_eq!(three, [0xE2, 0x82, 0xAC]);
    let mut five = [7u8; 5];
    assert_eq!(encode_char('\u{e9}', &mut five), 2);
    assert_eq!(five, [0xC3, 0xA9, 7, 7, 7]);
}
