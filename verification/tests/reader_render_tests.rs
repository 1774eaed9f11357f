use sig_bitmap::reader::bitmap_from_lines;
use sig_bitmap::reader::parse_hex_u64;
use sig_bitmap::reader::starts_with_str;
use sig_bitmap::reader::trim_str;
use sig_bitmap::render::render;
use sig_bitmap::BitmapType;

#[test]
fn test_parse_hex() {
    assert_eq!(parse_hex_u64("dead"), Some(0xdead));
    assert_eq!(parse_hex_u64("DEAD"), Some(0xdead));
    assert_eq!(parse_hex_u64("0000000000000001"), Some(1));
    assert_eq!(parse_hex_u64("ffffffffffffffff"), Some(u64::MAX));
    assert_eq!(parse_hex_u64("0ffffffffffffffff"), Some(u64::MAX));
    assert_eq!(parse_hex_u64(""), None);
    assert_eq!(parse_hex_u64("xyz"), None);
    assert_eq!(parse_hex_u64("12g4"), None);
    assert_eq!(parse_hex_u64("10000000000000000"), None);
}

#[test]
fn test_trim() {
    assert_eq!(trim_str(" \t00ff \n"), "00ff");
    assert_eq!(trim_str(""), "");
    assert_eq!(trim_str(" \t "), "");
    assert_eq!(trim_str("abc"), "abc");
}

#[test]
fn test_starts_with() {
    assert!(starts_with_str("SigPnd:\t00aa", "SigPnd:"));
    assert!(!starts_with_str("ShdPnd:\t00aa", "SigPnd:"));
    assert!(!starts_with_str("Sig", "SigPnd:"));
}

#[test]
fn test_bitmap_from_lines_match() {
    let lines: Vec<String> = vec![
        "Name:\tcat".to_string(),
        "SigPnd:\t0000000000000000".to_string(),
        "SigBlk:\t00000000000000aa".to_string(),
        "SigIgn:\t0000000000000001".to_string(),
    ];
    assert_eq!(bitmap_from_lines(&lines, &BitmapType::SigBlk), 0xaa);
    assert_eq!(bitmap_from_lines(&lines, &BitmapType::SigIgn), 1);
    assert_eq!(bitmap_from_lines(&lines, &BitmapType::SigPnd), 0);
}

#[test]
fn test_bitmap_from_lines_no_match_yields_zero() {
    let lines: Vec<String> = vec!["Name:\tcat".to_string(), "Pid:\t42".to_string()];
    assert_eq!(bitmap_from_lines(&lines, &BitmapType::SigCgt), 0);
    let empty: Vec<String> = Vec::new();
    assert_eq!(bitmap_from_lines(&empty, &BitmapType::SigPnd), 0);
}

#[test]
fn test_bitmap_from_lines_skips_malformed() {
    let lines: Vec<String> = vec![
        "SigCgt:\tnot-hex".to_string(),
        "SigCgt:\t0000000000000180".to_string(),
    ];
    assert_eq!(bitmap_from_lines(&lines, &BitmapType::SigCgt), 0x180);
}

#[test]
fn test_bitmap_from_lines_first_valid_wins() {
    let lines: Vec<String> = vec![
        "SigBlk:\t0000000000000001".to_string(),
        "SigBlk:\t0000000000000002".to_string(),
    ];
    assert_eq!(bitmap_from_lines(&lines, &BitmapType::SigBlk), 1);
}

#[test]
fn test_render_zero_bitmap() {
    let out: String = render(42, &BitmapType::SigPnd, 0);
    let expected: String = format!(
        "PID: {:<6} {} {:<2} [0x{:016x}]: {}",
        42, "SigPnd:", 0, 0u64, "NONE",
    );
    assert_eq!(out, expected);
}

#[test]
fn test_render_short_line_unwrapped() {
    let out: String = render(1, &BitmapType::SigIgn, 0x180);
    let expected: String = format!(
        "PID: {:<6} {} {:<2} [0x{:016x}]: {}",
        1, "SigIgn:", 2, 0x180u64, "FPE, KILL",
    );
    assert_eq!(out, expected);
}

#[test]
fn test_zero_bitmap_end_to_end() {
    // A process that does not exist yields no status lines, hence
    // bitmap 0, and a single unwrapped line showing count 0 and NONE.
    let lines: Vec<String> = Vec::new();
    let map = BitmapType::SigPnd;
    let bit_map: u64 = bitmap_from_lines(&lines, &map);
    assert_eq!(bit_map, 0);
    let out: String = render(424242, &map, bit_map);
    assert!(out.contains("NONE"));
    assert!(out.contains("SigPnd:"));
    assert!(out.contains(" 0 "));
    assert!(!out.contains('\n'));
}

#[test]
fn test_render_wraps_long_line() {
    let out: String = render(7, &BitmapType::SigCgt, u64::MAX);
    let lines: Vec<&str> = out.lines().collect();
    assert!(lines.len() >= 2);
    let indent: String = " ".repeat(45);
    for cont in &lines[1..] {
        assert!(cont.starts_with(&indent));
    }
    assert!(out.contains("RTMAX"));
    assert!(lines[0].len() <= 80);
}
