use legion83::curve::{pwm_to_rpm, rpm_to_pwm};
use legion83::text::{
    after_last_char, contains, i64_to_string, lines, parse_i32, parse_u64, split_once, strip_prefix,
    trim, trim_end_matches, u64_to_string,
};

#[test]
fn trim_removes_unicode_whitespace() {
    assert_eq!(trim("  a b \n"), "a b");
    assert_eq!(trim("\u{3000}x\u{85}"), "x");
    assert_eq!(trim(" \t\r\n"), "");
    assert_eq!(trim("x"), "x");
}

#[test]
fn parse_i32_follows_std() {
    assert_eq!(parse_i32("42"), Some(42));
    assert_eq!(parse_i32("+7"), Some(7));
    assert_eq!(parse_i32("-0"), Some(0));
    assert_eq!(parse_i32("0012"), Some(12));
    assert_eq!(parse_i32("-2147483648"), Some(i32::MIN));
    assert_eq!(parse_i32("2147483647"), Some(i32::MAX));
    assert_eq!(parse_i32("2147483648"), None);
    assert_eq!(parse_i32("-2147483649"), None);
    assert_eq!(parse_i32(""), None);
    assert_eq!(parse_i32("+"), None);
    assert_eq!(parse_i32("-"), None);
    assert_eq!(parse_i32(" 1"), None);
    assert_eq!(parse_i32("1 "), None);
    assert_eq!(parse_i32("1e3"), None);
    assert_eq!(parse_i32("\u{663}"), None);
    for s in ["42", "+7", "-0", "0012", "-2147483648", "2147483648", "", "+", "-", " 1", "1e3", "--1", "+-1"] {
        assert_eq!(parse_i32(s), s.parse::<i32>().ok(), "{s:?}");
    }
}

#[test]
fn parse_u64_follows_std() {
    assert_eq!(parse_u64("-1"), None);
    assert_eq!(parse_u64("+1"), Some(1));
    assert_eq!(parse_u64("18446744073709551615"), Some(u64::MAX));
    assert_eq!(parse_u64("18446744073709551616"), None);
    assert_eq!(parse_u64("99999999999999999999999999"), None);
    for s in ["-1", "+1", "-0", "5", "", "+", "-", "18446744073709551615", "18446744073709551616", "9x"] {
        assert_eq!(parse_u64(s), s.parse::<u64>().ok(), "{s:?}");
    }
}

#[test]
fn lines_follow_std() {
    for s in ["a\r\nb\n", "a\n\nb", "x\r", "", "\n", "a", "\r\n", "one\ntwo\r\nthree"] {
        let ours: Vec<&str> = lines(s);
        let theirs: Vec<&str> = s.lines().collect();
        assert_eq!(ours, theirs, "{s:?}");
    }
    assert_eq!(lines("a\r\nb\n"), vec!["a", "b"]);
    assert_eq!(lines("x\r"), vec!["x\r"]);
}

#[test]
fn decimal_text_matches_to_string() {
    assert_eq!(i64_to_string(-305), "-305");
    assert_eq!(i64_to_string(0), "0");
    assert_eq!(i64_to_string(i64::MIN), i64::MIN.to_string());
    assert_eq!(i64_to_string(i64::MAX), i64::MAX.to_string());
    assert_eq!(u64_to_string(u64::MAX), u64::MAX.to_string());
    for v in [-2147483648i64, -1, 9, 10, 99, 100, 2147483647] {
        assert_eq!(i64_to_string(v), v.to_string());
    }
}

#[test]
fn written_value_reads_back() {
    for v in [i32::MIN, -99, -1, 0, 1, 255, 45_000_000, i32::MAX] {
        assert_eq!(parse_i32(trim(&i64_to_string(v as i64))), Some(v));
    }
}

#[test]
fn substring_helpers() {
    assert!(contains("abcabd", "abd"));
    assert!(!contains("ab", "abc"));
    assert!(contains("x", ""));
    assert!(contains("sudo: a password is required", "password is required"));
    assert_eq!(trim_end_matches("-99.61 mV mV", " mV"), "-99.61");
    assert_eq!(trim_end_matches("abc", ""), "abc");
    assert_eq!(after_last_char("/usr/bin/python3", '/'), "python3");
    assert_eq!(after_last_char("noslash", '/'), "noslash");
    assert_eq!(after_last_char("end/", '/'), "");
    assert_eq!(split_once("a=b=c", '='), Some(("a", "b=c")));
    assert_eq!(split_once("abc", '='), None);
    assert_eq!(strip_prefix("CPU (0): -99 mV", "CPU (0): "), Some("-99 mV"));
    assert_eq!(strip_prefix("GPU (1): -99 mV", "CPU (0): "), None);
}

#[test]
fn pwm_to_rpm_rounds_to_hundreds() {
    assert_eq!(pwm_to_rpm(128, 5400), 2700);
    assert_eq!(pwm_to_rpm(255, 5400), 5400);
    assert_eq!(pwm_to_rpm(0, 5400), 0);
    assert_eq!(pwm_to_rpm(-128, 5400), -2700);
    // halfway cases go away from zero
    assert_eq!(pwm_to_rpm(1, 12750), 100);
    assert_eq!(pwm_to_rpm(-1, 12750), -100);
    assert_eq!(pwm_to_rpm(47, 5400), 1000);
}

#[test]
fn rpm_to_pwm_clamps_and_rounds() {
    assert_eq!(rpm_to_pwm(2700, 5400), 128);
    assert_eq!(rpm_to_pwm(1000, 5400), 47);
    assert_eq!(rpm_to_pwm(2000, 5400), 94);
    assert_eq!(rpm_to_pwm(6000, 5400), 255);
    assert_eq!(rpm_to_pwm(-100, 5400), 0);
    assert_eq!(rpm_to_pwm(100, 0), 255);
    assert_eq!(rpm_to_pwm(0, 0), 0);
    assert_eq!(rpm_to_pwm(-1, 0), 0);
}

#[test]
fn rpm_pwm_roundtrip() {
    for mx in [4300, 5400, 10000] {
        for rpm in (0..=mx).step_by(100) {
            assert_eq!(pwm_to_rpm(rpm_to_pwm(rpm, mx), mx), rpm, "rpm {rpm} max {mx}");
        }
    }
}
