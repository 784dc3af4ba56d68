use lolcat::palette::rgb_to_ansi256;
use lolcat::plan::ColorMode;
use lolcat::sgr::{append_decimal_u8, build_ansi_prefix, build_truecolor_prefix};
use lolcat::term::{choose_color_mode_from, detects_truecolor_from};

#[test]
fn rgb_to_ansi256_maps_primary_colors() {
    assert_eq!(rgb_to_ansi256(255, 0, 0), 196);
    assert_eq!(rgb_to_ansi256(0, 255, 0), 46);
    assert_eq!(rgb_to_ansi256(0, 0, 255), 21);
    assert_eq!(rgb_to_ansi256(128, 128, 128), 243);
}

#[test]
fn rgb_to_ansi256_grey_ramp_and_its_ends() {
    assert_eq!(rgb_to_ansi256(0, 0, 0), 16);
    assert_eq!(rgb_to_ansi256(7, 7, 7), 16);
    assert_eq!(rgb_to_ansi256(8, 8, 8), 232);
    assert_eq!(rgb_to_ansi256(248, 248, 248), 255);
    assert_eq!(rgb_to_ansi256(249, 249, 249), 231);
    assert_eq!(rgb_to_ansi256(255, 255, 255), 231);
}

#[test]
fn rgb_to_ansi256_quantizes_each_channel_to_six_levels() {
    assert_eq!(rgb_to_ansi256(254, 0, 0), 16 + 36 * 4);
    assert_eq!(rgb_to_ansi256(51, 102, 153), 16 + 36 + 6 * 2 + 3);
    assert_eq!(rgb_to_ansi256(0, 0, 50), 16);
    assert_eq!(rgb_to_ansi256(255, 255, 0), 226);
}

#[test]
fn detects_truecolor_env_toggle() {
    assert!(detects_truecolor_from(Some("truecolor")));
    assert!(detects_truecolor_from(Some("24BIT")));
    assert!(!detects_truecolor_from(Some("ansi")));
    assert!(!detects_truecolor_from(None));
}

#[test]
fn detects_truecolor_inside_a_longer_value() {
    assert!(detects_truecolor_from(Some("xterm-TrueColor-256")));
    assert!(detects_truecolor_from(Some("my24bitterm")));
    assert!(!detects_truecolor_from(Some("truecolo")));
    assert!(!detects_truecolor_from(Some("")));
    assert!(!detects_truecolor_from(Some("24 bit")));
}

#[test]
fn choose_color_mode_prefers_truecolor_flag() {
    assert!(matches!(choose_color_mode_from(true, None), ColorMode::TrueColor));
    assert!(matches!(
        choose_color_mode_from(false, Some("24bit")),
        ColorMode::TrueColor
    ));
    assert!(matches!(
        choose_color_mode_from(false, Some("ansi")),
        ColorMode::Ansi256
    ));
}

#[test]
fn append_decimal_writes_digits_without_leading_zeros() {
    let mut buf = [0xAAu8; 4];
    assert_eq!(append_decimal_u8(&mut buf, 0), 1);
    assert_eq!(&buf, b"0\xAA\xAA\xAA");
    let mut buf = [0xAAu8; 4];
    assert_eq!(append_decimal_u8(&mut buf, 42), 2);
    assert_eq!(&buf, b"42\xAA\xAA");
    let mut buf = [0xAAu8; 4];
    assert_eq!(append_decimal_u8(&mut buf, 205), 3);
    assert_eq!(&buf, b"205\xAA");
    let mut buf = [0xAAu8; 3];
    assert_eq!(append_decimal_u8(&mut buf, 100), 3);
    assert_eq!(&buf, b"100");
}

#[test]
fn truecolor_prefix_has_the_three_channels() {
    let mut buf = [0u8; 64];
    let len = build_truecolor_prefix(&mut buf, false, 255, 0, 17);
    assert_eq!(&buf[..len], b"\x1b[38;2;255;0;17m");
    let len = build_truecolor_prefix(&mut buf, true, 1, 22, 133);
    assert_eq!(&buf[..len], b"\x1b[48;2;1;22;133m");
    let mut tight = [0u8; 19];
    let len = build_truecolor_prefix(&mut tight, false, 255, 255, 255);
    assert_eq!(len, 19);
    assert_eq!(&tight[..], b"\x1b[38;2;255;255;255m");
    let mut short = [0xAAu8; 14];
    let len = build_truecolor_prefix(&mut short, false, 0, 0, 0);
    assert_eq!(&short[..len], b"\x1b[38;2;0;0;0m");
    assert_eq!(short[13], 0xAA);
}

#[test]
fn ansi_prefix_has_the_palette_index() {
    let mut buf = [0u8; 64];
    let len = build_ansi_prefix(&mut buf, false, 196);
    assert_eq!(&buf[..len], b"\x1b[38;5;196m");
    let len = build_ansi_prefix(&mut buf, true, 7);
    assert_eq!(&buf[..len], b"\x1b[48;5;7m");
    let mut short = [0u8; 10];
    let len = build_ansi_prefix(&mut short, false, 16);
    assert_eq!(&short[..len], b"\x1b[38;5;16m");
    let mut tight = [0u8; 11];
    let len = build_ansi_prefix(&mut tight, false, 231);
    assert_eq!(&tight[..len], b"\x1b[38;5;231m");
}
