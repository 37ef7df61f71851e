use http_replay_bench::text::{is_blank, parse_usize, push_decimal, trim};

fn written(n: u64) -> String {
    let mut out = String::new();
    push_decimal(&mut out, n);
    out
}

#[test]
fn decimal_matches_display() {
    for n in [0, 7, 10, 99, 100, 1024, 16384, u64::from(u32::MAX), u64::MAX] {
        assert_eq!(written(n), n.to_string());
    }
}

#[test]
fn white_space_matches_std() {
    for c in '\0'..=char::MAX {
        let s = c.to_string();
        assert_eq!(is_blank(&s), s.trim().is_empty(), "{c:?}");
    }
}

#[test]
fn trim_matches_std() {
    for s in ["", " ", "a", " a", "a ", "\t a b \r\n", "\u{3000}x\u{85}", "a\u{200b}"] {
        assert_eq!(trim(s), s.trim());
        assert_eq!(is_blank(s), s.trim().is_empty());
    }
}

#[test]
fn parse_matches_std() {
    for s in [
        "", "+", "-", "0", "+0", "-0", "00012", "16384", " 1", "1 ", "1_0", "+5", "++5", "0x1",
        "18446744073709551615", "18446744073709551616", "99999999999999999999999",
        "000000000000000000000000000000001", "12a",
    ] {
        assert_eq!(parse_usize(s.as_bytes()), s.parse::<usize>().ok(), "{s}");
    }
}
