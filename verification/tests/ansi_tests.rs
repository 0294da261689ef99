use bijjou::ansi::{
    decode_utf8, emit_filtered_ansi, is_fg_color_sgr, skip_csi, strip_sgr, EMPTY_MARKER,
    EMPTY_MARKER_BYTES, IMMUTABLE_MARKER, IMMUTABLE_MARKER_BYTES,
};

#[test]
fn skip_csi_basic_sgr() {
    assert_eq!(skip_csi(b"\x1b[31mfoo", 0), Some(5));
}

#[test]
fn skip_csi_no_escape_returns_none() {
    assert_eq!(skip_csi(b"foo", 0), None);
}

#[test]
fn skip_csi_with_multi_param_sgr() {
    assert_eq!(skip_csi(b"\x1b[38;5;245mX", 0), Some(11));
}

#[test]
fn skip_csi_unterminated_returns_buffer_end() {
    assert_eq!(skip_csi(b"\x1b[38;5", 0), Some(6));
}

#[test]
fn skip_csi_at_offset() {
    assert_eq!(skip_csi(b"X\x1b[1m", 1), Some(5));
}

#[test]
fn decode_utf8_ascii() {
    assert_eq!(decode_utf8(b"A", 0), (0x41, 1));
}

#[test]
fn decode_utf8_two_byte() {
    assert_eq!(decode_utf8(b"\xc2\xa3", 0), (0xa3, 2));
}

#[test]
fn decode_utf8_three_byte_circle() {
    assert_eq!(decode_utf8(b"\xe2\x97\x8b", 0), (0x25CB, 3));
}

#[test]
fn decode_utf8_three_byte_diamond() {
    assert_eq!(decode_utf8(b"\xe2\x97\x86", 0), (0x25C6, 3));
}

#[test]
fn decode_utf8_four_byte_empty_marker() {
    assert_eq!(decode_utf8(&EMPTY_MARKER_BYTES, 0), (EMPTY_MARKER, 4));
}

#[test]
fn decode_utf8_four_byte_immutable_marker() {
    assert_eq!(decode_utf8(&IMMUTABLE_MARKER_BYTES, 0), (IMMUTABLE_MARKER, 4));
}

#[test]
fn fg_color_basic_30s() {
    for code in 30u16..=37 {
        assert!(is_fg_color_sgr(&code.to_string()));
    }
    assert!(is_fg_color_sgr("39"));
}

#[test]
fn fg_color_bright_90s() {
    for code in 90u16..=97 {
        assert!(is_fg_color_sgr(&code.to_string()));
    }
}

#[test]
fn fg_color_extended_256_and_truecolor() {
    assert!(is_fg_color_sgr("38;5;245"));
    assert!(is_fg_color_sgr("38;2;255;199;83"));
}

#[test]
fn fg_color_rejects_bg_and_attrs() {
    assert!(!is_fg_color_sgr("0"));
    assert!(!is_fg_color_sgr("1"));
    assert!(!is_fg_color_sgr("3"));
    assert!(!is_fg_color_sgr("40"));
    assert!(!is_fg_color_sgr("49"));
    assert!(!is_fg_color_sgr("48;5;1"));
}

#[test]
fn fg_color_handles_empty_and_garbage() {
    assert!(!is_fg_color_sgr(""));
    assert!(!is_fg_color_sgr("xyz"));
}

#[test]
fn filtered_ansi_drops_fg_keeps_attrs_and_text() {
    let mut out = Vec::new();
    emit_filtered_ansi(b"\x1b[1m\x1b[31mhello\x1b[39m\x1b[0m", &mut out, is_fg_color_sgr);
    assert_eq!(out, b"\x1b[1mhello\x1b[0m");
}

#[test]
fn filtered_ansi_passthrough_plain_text() {
    let mut out = Vec::new();
    emit_filtered_ansi(b"plain", &mut out, is_fg_color_sgr);
    assert_eq!(out, b"plain");
}

#[test]
fn filtered_ansi_drops_truecolor_fg() {
    let mut out = Vec::new();
    emit_filtered_ansi(b"\x1b[38;2;255;199;83mtext\x1b[39m", &mut out, is_fg_color_sgr);
    assert_eq!(out, b"text");
}

#[test]
fn filtered_ansi_appends_after_existing_output() {
    let mut out = b"> ".to_vec();
    emit_filtered_ansi(b"\x1b[32mgo\x1b[4m!", &mut out, is_fg_color_sgr);
    assert_eq!(out, b"> go\x1b[4m!");
}

#[test]
fn fg_color_plus_sign_and_leading_zeros_read_as_numbers() {
    assert!(is_fg_color_sgr("+31"));
    assert!(is_fg_color_sgr("031"));
    assert!(!is_fg_color_sgr("38"));
    assert!(!is_fg_color_sgr("38;7"));
    assert!(!is_fg_color_sgr("70000"));
}

#[test]
fn strip_sgr_removes_every_sgr_and_keeps_other_escapes() {
    assert_eq!(strip_sgr(b"\x1b[1mbold\x1b[0m \x1b[2Kx"), b"bold \x1b[2Kx".to_vec());
    assert_eq!(strip_sgr(b"plain"), b"plain".to_vec());
}

#[test]
fn decode_utf8_truncated_sequence_stands_for_itself() {
    assert_eq!(decode_utf8(b"\xe2\x97", 0), (0xe2, 1));
    assert_eq!(decode_utf8(b"\x97", 0), (0x97, 1));
}

#[test]
fn decoding_a_well_formed_character_agrees_with_utf8() {
    for s in ["a", "é", "─", "𜸩"] {
        let b = s.as_bytes();
        assert_eq!(decode_utf8(b, 0), (s.chars().next().unwrap() as u32, b.len()));
    }
}

#[test]
fn a_filter_that_drops_nothing_keeps_every_byte() {
    let bytes = b"\x1b[1m\x1b[31mhi\x1b[2Kx\x1b[0m";
    let mut out = Vec::new();
    emit_filtered_ansi(bytes, &mut out, |_: &str| false);
    assert_eq!(out, bytes.to_vec());
}

#[test]
fn the_filter_is_asked_about_each_sgr_in_turn_with_its_text() {
    let asked = std::cell::RefCell::new(Vec::new());
    let mut out = Vec::new();
    emit_filtered_ansi(b"\x1b[1ma\x1b[2Kb\x1b[0;4mc\x1b[\xffm", &mut out, |p: &str| {
        asked.borrow_mut().push(p.to_string());
        p == "1"
    });
    assert_eq!(out, b"a\x1b[2Kb\x1b[0;4mc\x1b[\xffm".to_vec());
    assert_eq!(*asked.borrow(), vec!["1".to_string(), "0;4".to_string(), String::new()]);
}
