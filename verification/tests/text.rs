use zed_prj_workspace::decimal;
use zed_prj_workspace::text;

#[test]
fn trimming_is_that_of_std() {
    for t in ["", "  a b ", "\t\n x", "\u{2003}y\u{a0}", "z", "   ", "\u{200b}q"] {
        assert_eq!(text::trim_text(t), t.trim());
    }
}

#[test]
fn white_space_is_that_of_std() {
    for n in 0..0x11000u32 {
        if let Some(c) = char::from_u32(n) {
            assert_eq!(text::white(c), c.is_whitespace(), "{:x}", n);
        }
    }
}

#[test]
fn splitting_is_that_of_std() {
    for t in ["", "a", "a,b", ",a,,b,", ","] {
        let std: Vec<String> = t.split(',').map(String::from).collect();
        assert_eq!(text::split_text(t, ','), std);
        assert_eq!(text::join_text(&std, ','), t);
    }
}

#[test]
fn lines_are_those_of_std() {
    for t in ["", "a", "a\n", "a\r\nb", "\n", "a\n\nb\r", "\r\n", "x\r\r\ny"] {
        let std: Vec<String> = t.lines().map(String::from).collect();
        assert_eq!(text::lines_of(t), std, "{:?}", t);
    }
}

#[test]
fn searching_is_that_of_std() {
    for (t, p) in [("abcabc", "cab"), ("abc", ""), ("", "a"), ("aab", "ab"), ("x", "xy")] {
        assert_eq!(text::contains_text(t, p), t.contains(p));
        assert_eq!(text::starts_with_text(t, p), t.starts_with(p));
        assert_eq!(text::ends_with_text(t, p), t.ends_with(p));
        assert_eq!(text::text_lt(t, p), t < p);
        assert_eq!(text::text_eq(t, p), t == p);
    }
}

#[test]
fn text_order_goes_by_characters() {
    assert!(text::text_lt("Z", "a"));
    assert!(text::text_lt("a", "\u{e9}"));
    assert!(text::text_lt("\u{ffff}", "\u{10000}"));
}

#[test]
fn numbers_are_read_as_by_std() {
    for t in [
        "", "0", "+7", "-7", "007", "+", "-", "--1", "1_0", " 1", "4294967295", "4294967296",
        "18446744073709551615", "18446744073709551616", "9223372036854775807",
        "9223372036854775808", "-9223372036854775808", "-9223372036854775809", "-0", "\u{661}",
    ] {
        assert_eq!(decimal::parse_u64(t), t.parse::<u64>().ok(), "{}", t);
        assert_eq!(decimal::parse_u32(t), t.parse::<u32>().ok(), "{}", t);
        assert_eq!(decimal::parse_usize(t), t.parse::<usize>().ok(), "{}", t);
        assert_eq!(decimal::parse_i64(t), t.parse::<i64>().ok(), "{}", t);
    }
}

#[test]
fn numbers_are_written_as_by_std() {
    for n in [0u64, 9, 10, 12345, u64::MAX] {
        assert_eq!(decimal::write_u64(n), n.to_string());
    }
    for n in [0i64, -1, 42, i64::MAX, i64::MIN] {
        assert_eq!(decimal::write_i64(n), n.to_string());
    }
}
