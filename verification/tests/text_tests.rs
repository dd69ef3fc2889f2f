use pi_webcam_streamer::order::str_lex_le;
use pi_webcam_streamer::text::{ends_with, parse_i64, push_f64_fixed4, push_signed_decimal, str_eq, u64_to_decimal};

#[test]
fn decimal_text_of_integers() {
    assert_eq!(u64_to_decimal(0), "0");
    assert_eq!(u64_to_decimal(7), "7");
    assert_eq!(u64_to_decimal(8640), "8640");
    assert_eq!(u64_to_decimal(u64::MAX), u64::MAX.to_string());
    let mut s = String::new();
    push_signed_decimal(&mut s, i64::MIN);
    assert_eq!(s, i64::MIN.to_string());
    let mut s = String::from("x");
    push_signed_decimal(&mut s, -42);
    assert_eq!(s, "x-42");
}

#[test]
fn parse_i64_matches_std() {
    for text in ["0", "1771655874", "-17", "+17", "-", "+", "", "12a", "9223372036854775807",
        "9223372036854775808", "-9223372036854775808", "-9223372036854775809", "007", " 1", "1 ",
        "99999999999999999999999"] {
        assert_eq!(parse_i64(text), text.parse::<i64>().ok(), "text {:?}", text);
    }
}

#[test]
fn parse_undoes_decimal_text() {
    for v in [0i64, 1, -1, 1771655874, i64::MIN, i64::MAX] {
        let mut s = String::new();
        push_signed_decimal(&mut s, v);
        assert_eq!(parse_i64(&s), Some(v));
    }
}

#[test]
fn float_text_matches_formatting() {
    for n in [0u64, 10, 9007199254740992, 9007199254740993, 9007199254740995, 18014398509481987,
        123456789012345678, u64::MAX] {
        let mut s = String::new();
        push_f64_fixed4(&mut s, n);
        assert_eq!(s, format!("{:.4}", n as f64), "n = {}", n);
    }
    let mut s = String::new();
    push_f64_fixed4(&mut s, 10);
    assert_eq!(s, "10.0000");
}

#[test]
fn text_comparisons() {
    assert!(str_eq("init.mp4", "init.mp4"));
    assert!(!str_eq("init.mp4", "init.mp"));
    assert!(ends_with("1.mp4", ".mp4"));
    assert!(!ends_with("mp4", ".mp4"));
    assert!(str_lex_le("1000.mp4", "999.mp4"));
    assert!(!str_lex_le("b", "a"));
    assert!(str_lex_le("ab", "abc"));
    assert!(str_lex_le("", ""));
}
