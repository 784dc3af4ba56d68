use lolcat::escape::EscapeState;
use lolcat::plan::{ColorMode, FrameMark, GlyphPos, Pen, Rgb, Style};
use lolcat::printer::{Printer, Setup, Sink};
use lolcat::stream::{
    finish_stream, finish_stream_streaming, process_stream, process_stream_buffered,
    process_stream_streaming, Source,
};

fn sink() -> Sink {
    Sink::new()
}

fn setup(use_color: bool, mode: ColorMode) -> Setup {
    Setup {
        use_color,
        style: Style {
            invert: false,
            mode,
        },
        animate: false,
        frames: 12,
    }
}

/// A palette that shows the place of a glyph in its colour.
fn place(pos: GlyphPos) -> Rgb {
    Rgb {
        r: pos.column as u8,
        g: pos.row as u8,
        b: pos.shift as u8,
    }
}

fn channel(value: f64) -> u8 {
    value.mul_add(127.0, 128.0).round().clamp(0.0, 255.0) as u8
}

/// The sinusoidal rainbow: the angle of a line's first glyph comes from the
/// offset, and each further glyph turns it by one step.
fn rainbow(freq: f64, spread: f64) -> impl Fn(GlyphPos) -> Rgb {
    move |pos: GlyphPos| {
        let mut offset = pos.row as f64;
        for _ in 0..pos.shift {
            offset += spread;
        }
        let (mut sin, mut cos) = (freq * offset).sin_cos();
        let (step_sin, step_cos) = (freq / spread).sin_cos();
        for _ in 0..pos.column {
            let next_sin = sin * step_cos + cos * step_sin;
            let next_cos = cos * step_cos - sin * step_sin;
            sin = next_sin;
            cos = next_cos;
        }
        Rgb {
            r: channel(sin),
            g: channel(sin * -0.5 + cos * 0.866_025_403_784_438_6),
            b: channel(sin * -0.5 - cos * 0.866_025_403_784_438_6),
        }
    }
}

/// Feeds `input` through a stream in chunks of `size` bytes and returns all
/// that went out.
fn stream_in_chunks<P: Fn(GlyphPos) -> Rgb>(
    printer: &mut Printer<P>,
    input: &[u8],
    size: usize,
) -> Vec<u8> {
    let mut out = sink();
    let mut source = Source::new();
    for chunk in input.chunks(size) {
        process_stream_streaming(printer, &mut source, chunk, &mut out);
    }
    finish_stream_streaming(printer, &mut source, &mut out);
    out.bytes
}

fn count(haystack: &[u8], needle: &[u8]) -> usize {
    haystack.windows(needle.len()).filter(|w| *w == needle).count()
}

/// Takes the control sequences out of `bytes`.
fn strip_ansi(bytes: &[u8]) -> Vec<u8> {
    let mut out = Vec::new();
    let mut i = 0;
    while i < bytes.len() {
        if bytes[i] == 0x1b && i + 1 < bytes.len() && bytes[i + 1] == b'[' {
            i += 2;
            while i < bytes.len() && !(0x40..=0x7e).contains(&bytes[i]) {
                i += 1;
            }
            i += 1;
        } else {
            out.push(bytes[i]);
            i += 1;
        }
    }
    out
}

#[test]
fn streaming_preserves_escape_sequences() {
    let mut printer = Printer::new(rainbow(0.1, 3.0), setup(true, ColorMode::Ansi256), 0);
    let input = b"\x1b[31mhello\nworld";
    let output = stream_in_chunks(&mut printer, &input[..], 2);
    assert!(
        output.windows(5).any(|w| w == b"\x1b[31m"),
        "escape sequence missing in {:?}",
        output
    );
}

#[test]
fn streaming_replaces_invalid_utf8() {
    let mut printer = Printer::new(rainbow(0.1, 3.0), setup(true, ColorMode::Ansi256), 0);
    let input = [0xFF, 0xFF, b'\n'];
    let output = stream_in_chunks(&mut printer, &input, 1);
    assert!(
        output.windows(3).any(|w| w == &[0xEF, 0xBF, 0xBD]),
        "replacement char missing in {:?}",
        output
    );
}

#[test]
fn forced_color_wraps_each_glyph_and_keeps_the_text() {
    let mut printer = Printer::new(rainbow(0.1, 3.0), setup(true, ColorMode::Ansi256), 0);
    let mut out = sink();
    let mut source = Source::new();
    process_stream(&mut printer, &mut source, b"hello\nworld\n", &mut out);
    finish_stream(&mut printer, &mut source, &mut out);
    printer.finalize(&mut out);
    assert!(count(&out.bytes, b"\x1b[38;") >= 1);
    assert!(out.bytes.starts_with(b"\x1b[38;5;112mh\x1b[39m"));
    assert!(out.bytes.ends_with(b"\x1b[0m"));
    assert_eq!(strip_ansi(&out.bytes), b"hello\nworld\n".to_vec());
    assert_eq!(count(&out.bytes, b"\x1b[39m"), 10);
    assert!(out.frames.is_empty());
}

#[test]
fn truecolor_glyph_has_the_exact_sequence() {
    let mut printer = Printer::new(rainbow(0.1, 3.0), setup(true, ColorMode::TrueColor), 0);
    let mut out = sink();
    printer.write_visible_char('h', &mut out);
    printer.flush_pending(&mut out);
    assert_eq!(out.bytes, b"\x1b[38;2;128;238;18mh\x1b[39m".to_vec());
}

#[test]
fn glyph_in_a_given_colour_is_wrapped_in_it() {
    let mut printer = Printer::new(place, setup(true, ColorMode::TrueColor), 0);
    let mut out = sink();
    printer.write_colored_glyph(b"a", Rgb { r: 1, g: 20, b: 255 }, &mut out);
    printer.write_colored_glyph("\u{20ac}".as_bytes(), Rgb { r: 0, g: 0, b: 0 }, &mut out);
    printer.flush_pending(&mut out);
    assert_eq!(
        out.bytes,
        b"\x1b[38;2;1;20;255ma\x1b[39m\x1b[38;2;0;0;0m\xe2\x82\xac\x1b[39m".to_vec()
    );
    assert_eq!(printer.pen().column, 2);
    let mut printer = Printer::new(place, setup(true, ColorMode::Ansi256), 0);
    let mut out = sink();
    printer.write_colored_glyph(b"a", Rgb { r: 255, g: 0, b: 0 }, &mut out);
    printer.flush_pending(&mut out);
    assert_eq!(out.bytes, b"\x1b[38;5;196ma\x1b[39m".to_vec());
}

#[test]
fn inverted_glyph_sets_and_resets_the_background() {
    let mut with = setup(true, ColorMode::TrueColor);
    with.style.invert = true;
    let mut printer = Printer::new(place, with, 7);
    let mut out = sink();
    printer.write_visible_char('x', &mut out);
    printer.write_visible_char('\u{e9}', &mut out);
    printer.flush_pending(&mut out);
    assert_eq!(
        out.bytes,
        b"\x1b[48;2;0;7;0mx\x1b[49m\x1b[48;2;1;7;0m\xc3\xa9\x1b[49m".to_vec()
    );
}

#[test]
fn chunk_boundaries_do_not_show_in_the_output() {
    let text = "a\u{e9}\u{20ac}\u{1f308}z\n\t\x1b[1mq\u{fffd}\n".as_bytes();
    let mut whole = Printer::new(place, setup(true, ColorMode::TrueColor), 3);
    let expected = stream_in_chunks(&mut whole, text, text.len());
    assert_eq!(strip_ansi(&expected), "a\u{e9}\u{20ac}\u{1f308}z\n        q\u{fffd}\n".as_bytes());
    assert_eq!(count(&expected, &[0xEF, 0xBF, 0xBD]), 1);
    for size in 1..text.len() {
        let mut printer = Printer::new(place, setup(true, ColorMode::TrueColor), 3);
        assert_eq!(stream_in_chunks(&mut printer, text, size), expected, "chunks of {}", size);
        assert_eq!(printer.pen(), whole.pen());
    }
    for cut in 0..=text.len() {
        let mut printer = Printer::new(place, setup(true, ColorMode::TrueColor), 3);
        let mut out = sink();
        let mut source = Source::new();
        process_stream_streaming(&mut printer, &mut source, &text[..cut], &mut out);
        assert!(source.carry.len() <= 3);
        process_stream_streaming(&mut printer, &mut source, &text[cut..], &mut out);
        assert!(source.carry.is_empty());
        finish_stream_streaming(&mut printer, &mut source, &mut out);
        assert_eq!(out.bytes, expected, "cut at {}", cut);
    }
}

#[test]
fn one_stray_byte_gives_one_marker() {
    for stray in [0x80u8, 0xBF, 0xC0, 0xC3, 0xE2, 0xF0, 0xF5, 0xFF] {
        let mut input = "caf\u{e9} ".as_bytes().to_vec();
        input.push(stray);
        input.extend_from_slice("na\u{ef}ve".as_bytes());
        for size in [1, 2, 3, input.len()] {
            let mut printer = Printer::new(place, setup(true, ColorMode::Ansi256), 0);
            let output = stream_in_chunks(&mut printer, &input, size);
            assert_eq!(count(&output, &[0xEF, 0xBF, 0xBD]), 1, "byte {:#x}", stray);
            assert_eq!(
                strip_ansi(&output),
                "caf\u{e9} \u{fffd}na\u{ef}ve".as_bytes(),
                "byte {:#x}",
                stray
            );
        }
    }
}

#[test]
fn unfinished_scalar_at_the_end_gives_one_marker() {
    let mut printer = Printer::new(place, setup(true, ColorMode::TrueColor), 0);
    let output = stream_in_chunks(&mut printer, &[b'a', 0xF0, 0x9F, 0x8C], 1);
    assert_eq!(strip_ansi(&output), "a\u{fffd}".as_bytes());
    let mut printer = Printer::new(place, setup(true, ColorMode::TrueColor), 0);
    let output = stream_in_chunks(&mut printer, &[0xE2, 0x82, b'a'], 1);
    assert_eq!(strip_ansi(&output), "\u{fffd}a".as_bytes());
    let mut printer = Printer::new(place, setup(true, ColorMode::TrueColor), 0);
    let output = stream_in_chunks(&mut printer, &[0xE0, 0x80, b'a'], 3);
    assert_eq!(strip_ansi(&output), "\u{fffd}\u{fffd}a".as_bytes());
}

#[test]
fn csi_sequence_goes_out_bare_and_unbroken() {
    let mut printer = Printer::new(place, setup(true, ColorMode::TrueColor), 0);
    let mut out = sink();
    printer.write_plain_segment(b"a\x1b[1;31mb", &mut out);
    printer.flush_pending(&mut out);
    assert_eq!(
        out.bytes,
        b"\x1b[38;2;0;0;0ma\x1b[39m\x1b[1;31m\x1b[38;2;1;0;0mb\x1b[39m".to_vec()
    );
    assert_eq!(printer.pen().escape, EscapeState::Idle);
}

#[test]
fn other_control_sequences_go_out_bare() {
    let cases: [&[u8]; 6] = [
        b"\x1b]0;title\x07",
        b"\x1b]0;title\x1b\\",
        b"\x1bPq#0\x1b\\",
        b"\x1b_app\x1b\\",
        b"\x1b(B",
        b"\x1b7",
    ];
    for sequence in cases {
        let mut printer = Printer::new(place, setup(true, ColorMode::TrueColor), 0);
        let mut out = sink();
        let mut text = sequence.to_vec();
        text.push(b'z');
        printer.write_plain_segment(&text, &mut out);
        printer.flush_pending(&mut out);
        let mut expected = sequence.to_vec();
        expected.extend_from_slice(b"\x1b[38;2;0;0;0mz\x1b[39m");
        assert_eq!(out.bytes, expected, "sequence {:?}", sequence);
        assert_eq!(printer.pen().escape, EscapeState::Idle);
    }
}

#[test]
fn tab_becomes_eight_coloured_spaces() {
    let mut printer = Printer::new(place, setup(true, ColorMode::TrueColor), 2);
    let mut out = sink();
    printer.write_plain_segment(b"\t", &mut out);
    printer.flush_pending(&mut out);
    let mut expected = Vec::new();
    for column in 0..8 {
        expected.extend_from_slice(format!("\x1b[38;2;{};2;0m \x1b[39m", column).as_bytes());
    }
    assert_eq!(out.bytes, expected);
    assert_eq!(printer.pen().column, 8);
}

#[test]
fn newline_moves_the_row_and_starts_the_line_anew() {
    let mut printer = Printer::new(place, setup(true, ColorMode::TrueColor), 5);
    let mut out = sink();
    let consumed = printer.consume_segment(b"ab\nc", &mut out);
    printer.flush_pending(&mut out);
    assert_eq!(consumed, 4);
    assert_eq!(
        out.bytes,
        b"\x1b[38;2;0;5;0ma\x1b[39m\x1b[38;2;1;5;0mb\x1b[39m\n\x1b[38;2;0;6;0mc\x1b[39m".to_vec()
    );
    assert_eq!(
        printer.pen(),
        Pen {
            escape: EscapeState::Idle,
            row: 6,
            shift: 0,
            column: 1,
            cursor_hidden: false,
        }
    );
}

#[test]
fn consume_segment_leaves_an_unfinished_scalar() {
    let mut printer = Printer::new(place, setup(true, ColorMode::TrueColor), 0);
    let mut out = sink();
    assert_eq!(printer.consume_segment(&[b'a', 0xE2, 0x82], &mut out), 1);
    assert_eq!(printer.consume_segment(&[0xE2, 0x82, 0xAC], &mut out), 3);
    assert_eq!(printer.consume_segment(&[], &mut out), 0);
    printer.flush_pending(&mut out);
    assert_eq!(strip_ansi(&out.bytes), "a\u{20ac}".as_bytes());
}

#[test]
fn plain_mode_copies_the_input() {
    let input: Vec<u8> = (0..=255u8).chain([b'\t', 0x1b, b'[', b'm', b'\n']).collect();
    let mut printer = Printer::new(place, setup(false, ColorMode::Ansi256), 0);
    let mut out = sink();
    let mut source = Source::new();
    for chunk in input.chunks(7) {
        process_stream(&mut printer, &mut source, chunk, &mut out);
    }
    finish_stream(&mut printer, &mut source, &mut out);
    printer.finalize(&mut out);
    assert_eq!(out.bytes, input);
    assert!(out.frames.is_empty());
    assert_eq!(printer.pen(), Pen { escape: EscapeState::Idle, row: 0, shift: 0, column: 0, cursor_hidden: false });
}

#[test]
fn plain_line_without_colour_is_the_line() {
    let mut printer = Printer::new(place, setup(false, ColorMode::Ansi256), 4);
    let mut out = sink();
    printer.print_plain_line(b"a\tb\x1b[0m", true, &mut out);
    printer.print_plain_line(b"c", false, &mut out);
    assert_eq!(out.bytes, b"a\tb\x1b[0m\nc".to_vec());
    assert_eq!(printer.pen().row, 4);
}

#[test]
fn plain_line_in_colour_starts_and_ends_outside_escapes() {
    let mut printer = Printer::new(place, setup(true, ColorMode::TrueColor), 0);
    let mut out = sink();
    printer.print_plain_line(b"a\x1b[3", true, &mut out);
    printer.print_plain_line(b"b", false, &mut out);
    printer.print_plain_line(b"c", false, &mut out);
    printer.flush_pending(&mut out);
    assert_eq!(
        out.bytes,
        b"\x1b[38;2;0;0;0ma\x1b[39m\x1b[3\n\x1b[38;2;0;1;0mb\x1b[39m\x1b[38;2;0;1;0mc\x1b[39m"
            .to_vec()
    );
    assert_eq!(printer.pen().row, 1);
    assert_eq!(printer.pen().column, 0);
}

#[test]
fn animation_restores_the_offset() {
    for newline in [true, false] {
        let mut with = setup(true, ColorMode::TrueColor);
        with.animate = true;
        with.frames = 3;
        let mut printer = Printer::new(place, with, 9);
        let mut out = sink();
        printer.animate_line(b"hi", newline, &mut out);
        let pen = printer.pen();
        assert_eq!(pen.row, if newline { 10 } else { 9 });
        assert_eq!(pen.shift, 0);
        assert!(pen.cursor_hidden);
        let mut expected = b"\x1b[?25l\x1b7".to_vec();
        let mut marks = Vec::new();
        for frame in 1..=3 {
            expected.extend_from_slice(b"\x1b8");
            expected.extend_from_slice(
                format!(
                    "\x1b[38;2;0;9;{0}mh\x1b[39m\x1b[38;2;1;9;{0}mi\x1b[39m",
                    frame
                )
                .as_bytes(),
            );
            marks.push(FrameMark {
                end: expected.len(),
                first: frame == 1,
            });
        }
        if newline {
            expected.push(b'\n');
        }
        assert_eq!(out.bytes, expected);
        assert_eq!(out.frames, marks);
        printer.animate_line(b"x", false, &mut out);
        assert_eq!(count(&out.bytes, b"\x1b[?25l"), 1);
        printer.finalize(&mut out);
        assert!(out.bytes.ends_with(b"\x1b[?25h\x1b[0m"));
        assert!(!printer.pen().cursor_hidden);
    }
}

#[test]
fn print_line_animates_only_lines_that_hold_something() {
    let mut with = setup(true, ColorMode::TrueColor);
    with.animate = true;
    with.frames = 2;
    let mut printer = Printer::new(place, with, 0);
    let mut out = sink();
    printer.print_line(b"", true, &mut out);
    printer.flush_pending(&mut out);
    assert_eq!(out.bytes, b"\n".to_vec());
    assert!(out.frames.is_empty());
    printer.print_line(b"a", true, &mut out);
    assert_eq!(out.frames.len(), 2);
    assert_eq!(printer.pen().row, 2);
}

#[test]
fn print_text_prints_line_by_line() {
    let mut printer = Printer::new(place, setup(true, ColorMode::TrueColor), 0);
    let mut out = sink();
    printer.print_text("a\n\nb\x1b[", &mut out);
    printer.print_text("c", &mut out);
    printer.print_text("", &mut out);
    printer.finalize(&mut out);
    assert_eq!(
        out.bytes,
        b"\x1b[38;2;0;0;0ma\x1b[39m\n\n\x1b[38;2;0;2;0mb\x1b[39m\x1b[\x1b[38;2;0;2;0mc\x1b[39m\x1b[0m"
            .to_vec()
    );
}

#[test]
fn buffered_stream_holds_a_line_until_its_newline() {
    let mut with = setup(true, ColorMode::TrueColor);
    with.animate = true;
    with.frames = 1;
    let mut printer = Printer::new(place, with, 0);
    let mut out = sink();
    let mut source = Source::new();
    process_stream_buffered(&mut printer, &mut source, b"ab", &mut out);
    assert!(out.bytes.is_empty());
    assert_eq!(source.line, b"ab".to_vec());
    process_stream_buffered(&mut printer, &mut source, b"c\n\xff", &mut out);
    assert_eq!(source.line, vec![0xFF]);
    assert_eq!(out.frames.len(), 1);
    assert_eq!(strip_ansi(&out.bytes), b"\x1b7\x1b8abc\n".to_vec());
    finish_stream(&mut printer, &mut source, &mut out);
    assert!(source.line.is_empty());
    assert_eq!(out.frames.len(), 2);
    assert_eq!(
        strip_ansi(&out.bytes),
        "\x1b7\x1b8abc\n\x1b7\x1b8\u{fffd}".as_bytes().to_vec()
    );
    assert_eq!(printer.pen().row, 1);
}

#[test]
fn marker_in_a_line_belongs_to_an_open_escape_sequence() {
    let mut printer = Printer::new(place, setup(true, ColorMode::TrueColor), 0);
    let mut out = sink();
    printer.write_plain_segment(b"\x1b]\xff\x07", &mut out);
    printer.flush_pending(&mut out);
    assert_eq!(out.bytes, b"\x1b]\xef\xbf\xbd\x07".to_vec());
    let mut printer = Printer::new(place, setup(true, ColorMode::TrueColor), 0);
    let output = stream_in_chunks(&mut printer, b"\x1b]\xff\x07", 8);
    assert_eq!(
        output,
        b"\x1b]\x1b[38;2;0;0;0m\xef\xbf\xbd\x1b[39m\x07".to_vec()
    );
}

#[test]
fn finalize_resets_colours_once_and_flushes() {
    let mut printer = Printer::new(place, setup(true, ColorMode::Ansi256), 0);
    let mut out = sink();
    printer.write_visible_char('a', &mut out);
    assert!(out.bytes.is_empty());
    printer.finalize(&mut out);
    assert_eq!(out.bytes, b"\x1b[38;5;16ma\x1b[39m\x1b[0m".to_vec());
}

#[test]
fn long_output_reaches_the_sink_in_order() {
    let mut printer = Printer::new(place, setup(true, ColorMode::TrueColor), 0);
    let mut out = sink();
    let text = vec![b'x'; 1000];
    printer.write_plain_segment(&text, &mut out);
    assert!(!out.bytes.is_empty());
    printer.flush_pending(&mut out);
    let mut expected = Vec::new();
    for column in 0..1000u32 {
        expected.extend_from_slice(
            format!("\x1b[38;2;{};0;0mx\x1b[39m", column as u8).as_bytes(),
        );
    }
    assert_eq!(out.bytes, expected);
}
