use release_parser::{InvalidVersion, Version};

#[test]
fn parses_full_version() {
    let v = Version::parse("1.2.3").unwrap();
    assert_eq!(v.major(), 1);
    assert_eq!(v.minor(), 2);
    assert_eq!(v.patch(), 3);
    assert_eq!(v.components(), 3);
    assert_eq!(v.pre(), None);
    assert_eq!(v.build_code(), None);
    assert_eq!(v.raw(), "1.2.3");
    assert_eq!(v.triple(), (1, 2, 3));
    assert_eq!(v.quad(), (1, 2, 3, None));
    assert_eq!(v.to_string(), "1.2.3");
}

#[test]
fn parses_major_only() {
    let v = Version::parse("1").unwrap();
    assert_eq!(v.major(), 1);
    assert_eq!(v.minor(), 0);
    assert_eq!(v.patch(), 0);
    assert_eq!(v.components(), 1);
    assert_eq!(v.to_string(), "1");
}

#[test]
fn parses_major_and_minor() {
    let v = Version::parse("10.20").unwrap();
    assert_eq!(v.triple(), (10, 20, 0));
    assert_eq!(v.components(), 2);
    assert_eq!(v.to_string(), "10.20");
}

#[test]
fn parses_pre_release_and_build_code() {
    let v = Version::parse("1.0.0-alpha.1+001").unwrap();
    assert_eq!(v.triple(), (1, 0, 0));
    assert_eq!(v.pre(), Some("alpha.1"));
    assert_eq!(v.build_code(), Some("001"));
    assert_eq!(v.quad(), (1, 0, 0, Some("alpha.1")));
    assert_eq!(v.components(), 3);
    assert_eq!(v.to_string(), "1.0.0-alpha.1+001");
}

#[test]
fn rejects_empty_text() {
    assert_eq!(Version::parse(""), Err(InvalidVersion));
}

#[test]
fn invalid_version_message() {
    assert_eq!(InvalidVersion.to_string(), "invalid version");
}

#[test]
fn zero_components_are_kept() {
    let v = Version::parse("0.0.0").unwrap();
    assert_eq!(v.triple(), (0, 0, 0));
    assert_eq!(v.components(), 3);
    assert_eq!(v.to_string(), "0.0.0");
    let v = Version::parse("0").unwrap();
    assert_eq!(v.components(), 1);
    assert_eq!(v.to_string(), "0");
}

#[test]
fn rejects_leading_zeros_in_numbers() {
    assert!(Version::parse("01").is_err());
    assert!(Version::parse("1.02").is_err());
    assert!(Version::parse("1.2.03").is_err());
    assert!(Version::parse("00").is_err());
}

#[test]
fn rejects_more_than_three_numbers() {
    assert!(Version::parse("1.2.3.4").is_err());
}

#[test]
fn rejects_stray_dots() {
    assert!(Version::parse(".1").is_err());
    assert!(Version::parse("1.").is_err());
    assert!(Version::parse("1..2").is_err());
    assert!(Version::parse("1.2.").is_err());
    assert!(Version::parse("1.2.3.").is_err());
}

#[test]
fn rejects_text_before_the_major_number() {
    assert!(Version::parse("v1.2.3").is_err());
    assert!(Version::parse("-1").is_err());
    assert!(Version::parse("+1").is_err());
    assert!(Version::parse(" 1").is_err());
}

#[test]
fn rejects_white_space_and_line_breaks() {
    assert!(Version::parse("1.2.3 ").is_err());
    assert!(Version::parse("1.2.3\n").is_err());
    assert!(Version::parse("1.2 .3").is_err());
}

#[test]
fn rejects_text_that_is_not_ascii() {
    assert!(Version::parse("1.2.3-\u{e9}").is_err());
    assert!(Version::parse("\u{661}").is_err());
    assert!(Version::parse("1.2.3+\u{3b1}").is_err());
}

#[test]
fn pre_release_led_by_a_letter_keeps_the_letter() {
    let v = Version::parse("1.0alpha").unwrap();
    assert_eq!(v.triple(), (1, 0, 0));
    assert_eq!(v.components(), 2);
    assert_eq!(v.pre(), Some("alpha"));
    assert_eq!(v.to_string(), "1.0-alpha");
    let v = Version::parse("1a").unwrap();
    assert_eq!(v.pre(), Some("a"));
    assert_eq!(v.components(), 1);
    assert_eq!(v.to_string(), "1-a");
}

#[test]
fn pre_release_must_start_with_dash_or_lower_case_letter() {
    assert!(Version::parse("1.0Alpha").is_err());
    assert!(Version::parse("1.0_alpha").is_err());
    assert!(Version::parse("1.0-Alpha").is_ok());
}

#[test]
fn bare_dash_is_an_absent_pre_release() {
    let v = Version::parse("1.0-").unwrap();
    assert_eq!(v.pre(), None);
    assert_eq!(v.raw(), "1.0-");
    assert_eq!(v.to_string(), "1.0");
}

#[test]
fn pre_release_may_start_with_an_empty_identifier() {
    let v = Version::parse("1.0-.5").unwrap();
    assert_eq!(v.pre(), Some(".5"));
    assert_eq!(v.to_string(), "1.0-.5");
    let v = Version::parse("1.0a.5").unwrap();
    assert_eq!(v.pre(), Some("a.5"));
}

#[test]
fn pre_release_identifiers_follow_the_numeric_rule() {
    assert!(Version::parse("1.0-0").is_ok());
    assert!(Version::parse("1.0-10").is_ok());
    assert!(Version::parse("1.0-01").is_err());
    assert!(Version::parse("1.0-rc.01").is_err());
    assert!(Version::parse("1.0-01a").is_ok());
    assert!(Version::parse("1.0-0-1").is_ok());
    assert!(Version::parse("1.0a01").is_err());
    assert!(Version::parse("1.0-a01").is_ok());
    assert!(Version::parse("1.0a1").is_ok());
}

#[test]
fn pre_release_rejects_empty_later_identifiers() {
    assert!(Version::parse("1.0-a.").is_err());
    assert!(Version::parse("1.0-a..b").is_err());
    assert!(Version::parse("1.0-..").is_err());
}

#[test]
fn pre_release_may_hold_dashes() {
    let v = Version::parse("1.0--").unwrap();
    assert_eq!(v.pre(), Some("-"));
    assert_eq!(v.to_string(), "1.0--");
    let v = Version::parse("1.2.3-x-y-z.--").unwrap();
    assert_eq!(v.pre(), Some("x-y-z.--"));
}

#[test]
fn build_code_takes_any_identifiers() {
    let v = Version::parse("1.2.3+001.A-b.0").unwrap();
    assert_eq!(v.pre(), None);
    assert_eq!(v.build_code(), Some("001.A-b.0"));
    assert_eq!(v.to_string(), "1.2.3+001.A-b.0");
    let v = Version::parse("1+x").unwrap();
    assert_eq!(v.components(), 1);
    assert_eq!(v.build_code(), Some("x"));
}

#[test]
fn build_code_rejects_empty_identifiers() {
    assert!(Version::parse("1.2.3+").is_err());
    assert!(Version::parse("1.2.3+.a").is_err());
    assert!(Version::parse("1.2.3+a.").is_err());
    assert!(Version::parse("1.2.3+a..b").is_err());
    assert!(Version::parse("1.2.3+a+b").is_err());
    assert!(Version::parse("1.2.3+a_b").is_err());
}

#[test]
fn numbers_that_do_not_fit_read_as_zero() {
    let v = Version::parse("18446744073709551615.1").unwrap();
    assert_eq!(v.major(), 18446744073709551615);
    assert_eq!(v.to_string(), "18446744073709551615.1");
    let v = Version::parse("18446744073709551616.1.99999999999999999999").unwrap();
    assert_eq!(v.triple(), (0, 1, 0));
    assert_eq!(v.components(), 3);
    assert_eq!(v.to_string(), "0.1.0");
}

#[test]
fn clone_keeps_every_field() {
    let v = Version::parse("1.2-rc.1+b7").unwrap();
    let w = v.clone();
    assert_eq!(v, w);
    assert_eq!(w.raw(), "1.2-rc.1+b7");
    assert_eq!(w.quad(), (1, 2, 0, Some("rc.1")));
    assert_eq!(w.build_code(), Some("b7"));
}

#[test]
fn canonical_text_keeps_the_components() {
    let texts = [
        "1",
        "1.2",
        "1.2.3",
        "0",
        "0.0",
        "1a",
        "1.0alpha",
        "1.0-",
        "1-",
        "1.2.3-rc.1",
        "1.2+build",
        "1-.x",
        "99999999999999999999",
        "1.99999999999999999999",
        "1.2.99999999999999999999-a+b",
        "1.0.0-alpha.1+001",
        "123456789012-",
    ];
    for text in texts {
        let v = Version::parse(text).unwrap();
        assert!(1 <= v.components() && v.components() <= 3);
        let canonical = v.to_string();
        let w = Version::parse(&canonical).unwrap();
        assert_eq!(w.components(), v.components(), "{}", text);
        assert_eq!(w.triple(), v.triple(), "{}", text);
        assert_eq!(w.pre(), v.pre(), "{}", text);
        assert_eq!(w.build_code(), v.build_code(), "{}", text);
        assert_eq!(w.raw(), canonical);
        assert_eq!(w.to_string(), canonical);
    }
}
