use release_parser::{is_build_hash, InvalidRelease, Release};

const HASH_40: &str = "a86d127c4b2f23a0a862620280427dcc14b1a2c9";

#[test]
fn parses_package_and_version() {
    let r = Release::parse("myapp@1.2.3").unwrap();
    assert_eq!(r.raw(), "myapp@1.2.3");
    assert_eq!(r.package(), Some("myapp"));
    assert_eq!(r.version_raw(), "1.2.3");
    let v = r.version().unwrap();
    assert_eq!(v.triple(), (1, 2, 3));
    assert_eq!(v.raw(), "1.2.3");
    assert_eq!(r.build_hash(), None);
    assert_eq!(r.to_string(), "myapp@1.2.3");
}

#[test]
fn hash_after_the_package_is_no_version() {
    let text = format!("myapp@{}", HASH_40);
    let r = Release::parse(&text).unwrap();
    assert_eq!(r.package(), Some("myapp"));
    assert!(r.version().is_none());
    assert_eq!(r.version_raw(), HASH_40);
    assert_eq!(r.build_hash(), Some(HASH_40));
    assert_eq!(r.to_string(), text);
}

#[test]
fn rejects_latest() {
    assert_eq!(Release::parse("latest"), Err(InvalidRelease::RestrictedName));
}

#[test]
fn rejects_dot_names() {
    assert_eq!(Release::parse("."), Err(InvalidRelease::RestrictedName));
    assert_eq!(Release::parse(".."), Err(InvalidRelease::RestrictedName));
    assert_eq!(Release::parse("  ..\t"), Err(InvalidRelease::RestrictedName));
    assert!(Release::parse("...").is_ok());
    assert!(Release::parse("latest1").is_ok());
    assert!(Release::parse("Latest").is_ok());
    assert!(Release::parse("lates").is_ok());
    assert!(Release::parse("a@latest").is_ok());
}

#[test]
fn rejects_251_characters() {
    let text = "a".repeat(251);
    assert_eq!(Release::parse(&text), Err(InvalidRelease::TooLong));
}

#[test]
fn accepts_250_characters() {
    let text = "a".repeat(250);
    let r = Release::parse(&text).unwrap();
    assert_eq!(r.raw(), text);
}

#[test]
fn length_is_taken_after_trimming() {
    let text = format!("   {}\n", "a".repeat(250));
    assert!(Release::parse(&text).is_ok());
    let text = format!("   {}\n", "a".repeat(251));
    assert_eq!(Release::parse(&text), Err(InvalidRelease::TooLong));
}

#[test]
fn length_is_counted_in_bytes() {
    let text = "\u{e9}".repeat(125);
    assert!(Release::parse(&text).is_ok());
    let text = "\u{e9}".repeat(126);
    assert_eq!(Release::parse(&text), Err(InvalidRelease::TooLong));
}

#[test]
fn too_long_comes_before_the_other_errors() {
    let text = format!("a/b{}", "a".repeat(250));
    assert_eq!(Release::parse(&text), Err(InvalidRelease::TooLong));
}

#[test]
fn rejects_slash() {
    assert_eq!(Release::parse("a/b@1.0.0"), Err(InvalidRelease::BadCharacters));
    assert_eq!(Release::parse("a@1.0.0/x"), Err(InvalidRelease::BadCharacters));
    assert_eq!(Release::parse("/"), Err(InvalidRelease::BadCharacters));
}

#[test]
fn rejects_line_breaks_inside() {
    assert_eq!(Release::parse("a\nb@1.0.0"), Err(InvalidRelease::BadCharacters));
    assert_eq!(Release::parse("a@1.0\r.0"), Err(InvalidRelease::BadCharacters));
    assert!(Release::parse("a@1.0.0\r\n").is_ok());
}

#[test]
fn release_error_messages() {
    assert_eq!(InvalidRelease::TooLong.to_string(), "invalid release: release name too long");
    assert_eq!(
        InvalidRelease::RestrictedName.to_string(),
        "invalid release: restricted release name"
    );
    assert_eq!(
        InvalidRelease::BadCharacters.to_string(),
        "invalid release: bad characters in release name"
    );
}

#[test]
fn trims_white_space() {
    let r = Release::parse("  \t myapp@1.2.3 \r\n").unwrap();
    assert_eq!(r.raw(), "myapp@1.2.3");
    assert_eq!(r.package(), Some("myapp"));
    assert_eq!(r.version_raw(), "1.2.3");
    let r = Release::parse("\u{a0}\u{2003}my app@1\u{3000}").unwrap();
    assert_eq!(r.raw(), "my app@1");
    assert_eq!(r.package(), Some("my app"));
}

#[test]
fn white_space_alone_is_an_empty_release() {
    let r = Release::parse(" \t\n ").unwrap();
    assert_eq!(r.raw(), "");
    assert_eq!(r.package(), None);
    assert_eq!(r.version_raw(), "");
    assert!(r.version().is_none());
    assert_eq!(r.to_string(), "");
    let r = Release::parse("").unwrap();
    assert_eq!(r.raw(), "");
}

#[test]
fn trims_what_the_standard_library_trims() {
    let mut code: u32 = 0;
    while code <= 0x10ffff {
        if let Some(c) = char::from_u32(code) {
            if c != '/' {
                let text = format!("{}x{}", c, c);
                let r = Release::parse(&text).unwrap();
                assert_eq!(r.raw(), text.trim(), "U+{:04X}", code);
                assert_eq!(r.raw() == "x", c.is_whitespace(), "U+{:04X}", code);
            }
        }
        code += if code < 0x4000 { 1 } else { 0x3d };
    }
}

#[test]
fn splits_at_the_first_at_sign() {
    let r = Release::parse("a@b@c").unwrap();
    assert_eq!(r.package(), Some("a"));
    assert_eq!(r.version_raw(), "b@c");
    assert!(r.version().is_none());
    assert_eq!(r.to_string(), "a@b@c");
}

#[test]
fn package_may_start_with_an_at_sign() {
    let r = Release::parse("@foo@1.0").unwrap();
    assert_eq!(r.package(), Some("@foo"));
    assert_eq!(r.version_raw(), "1.0");
    assert_eq!(r.version().unwrap().triple(), (1, 0, 0));
    assert_eq!(r.to_string(), "@foo@1.0");
    let r = Release::parse("@scope@pkg@2").unwrap();
    assert_eq!(r.package(), Some("@scope"));
    assert_eq!(r.version_raw(), "pkg@2");
}

#[test]
fn text_without_a_package() {
    for text in ["@", "@@", "@a", "@@a", "@@a@1", "@@@", "plain"] {
        let r = Release::parse(text).unwrap();
        assert_eq!(r.package(), None, "{}", text);
        assert_eq!(r.version_raw(), text);
        assert_eq!(r.raw(), text);
        assert_eq!(r.to_string(), text);
    }
}

#[test]
fn nothing_after_the_package() {
    let r = Release::parse("a@").unwrap();
    assert_eq!(r.package(), Some("a"));
    assert_eq!(r.version_raw(), "");
    assert!(r.version().is_none());
    assert_eq!(r.to_string(), "a@");
    let r = Release::parse("@a@").unwrap();
    assert_eq!(r.package(), Some("@a"));
    assert_eq!(r.version_raw(), "");
}

#[test]
fn version_without_a_package() {
    let r = Release::parse("1.2.3-rc1").unwrap();
    assert_eq!(r.package(), None);
    assert_eq!(r.version_raw(), "1.2.3-rc1");
    let v = r.version().unwrap();
    assert_eq!(v.quad(), (1, 2, 3, Some("rc1")));
    assert_eq!(r.to_string(), "1.2.3-rc1");
}

#[test]
fn text_that_is_no_version_is_kept() {
    let r = Release::parse("my.pkg@some thing + else").unwrap();
    assert_eq!(r.package(), Some("my.pkg"));
    assert_eq!(r.version_raw(), "some thing + else");
    assert!(r.version().is_none());
    assert_eq!(r.build_hash(), None);
    assert_eq!(r.to_string(), "my.pkg@some thing + else");
}

#[test]
fn package_may_hold_any_other_character() {
    let r = Release::parse("org.example.\u{fc}ber app:2@1.0").unwrap();
    assert_eq!(r.package(), Some("org.example.\u{fc}ber app:2"));
    assert_eq!(r.version().unwrap().triple(), (1, 0, 0));
}

#[test]
fn build_hash_lengths() {
    for n in 0..80 {
        let text = "a1".repeat(40)[..n].to_string();
        let expected = [12, 16, 20, 32, 40, 64].contains(&n);
        assert_eq!(is_build_hash(&text), expected, "{}", n);
    }
}

#[test]
fn short_hash_of_seven_is_no_hash() {
    assert!(!is_build_hash("a1b2c3d"));
    let r = Release::parse("app@a1b2c3d").unwrap();
    assert_eq!(r.build_hash(), None);
}

#[test]
fn build_hash_takes_both_cases() {
    assert!(is_build_hash("0123456789ab"));
    assert!(is_build_hash("ABCDEFabcdef"));
    assert!(is_build_hash("0123456789abcdefABCDEF0123456789"));
    assert!(!is_build_hash("0123456789ag"));
    assert!(!is_build_hash("0123456789a-"));
    assert!(!is_build_hash("0123456789a "));
    assert!(!is_build_hash("\u{e9}\u{e9}\u{e9}\u{e9}\u{e9}\u{e9}"));
    assert!(!is_build_hash("0123456789a\u{e9}"));
    assert!(!is_build_hash(""));
}

#[test]
fn digits_in_a_hash_length_are_a_hash() {
    let r = Release::parse("app@123456789012").unwrap();
    assert!(r.version().is_none());
    assert_eq!(r.build_hash(), Some("123456789012"));
    let r = Release::parse("app@1234567890123").unwrap();
    assert_eq!(r.version().unwrap().major(), 1234567890123);
    assert_eq!(r.build_hash(), None);
}

#[test]
fn build_hash_from_build_code() {
    let r = Release::parse("app@1.0.0+a86d127c4b2f").unwrap();
    assert_eq!(r.version().unwrap().build_code(), Some("a86d127c4b2f"));
    assert_eq!(r.build_hash(), Some("a86d127c4b2f"));
    let r = Release::parse("app@1.0.0+a86d127").unwrap();
    assert_eq!(r.build_hash(), None);
    let r = Release::parse("app@1.0.0+20200101").unwrap();
    assert_eq!(r.build_hash(), None);
}

#[test]
fn release_clone_keeps_every_field() {
    let r = Release::parse(" pkg@1.2+abc ").unwrap();
    let c = r.clone();
    assert_eq!(r, c);
    assert_eq!(c.raw(), "pkg@1.2+abc");
    assert_eq!(c.package(), Some("pkg"));
    assert_eq!(c.version_raw(), "1.2+abc");
    assert_eq!(c.version().unwrap().build_code(), Some("abc"));
}

#[test]
fn canonical_text_uses_the_canonical_version() {
    let r = Release::parse("pkg@1.0alpha").unwrap();
    assert_eq!(r.version_raw(), "1.0alpha");
    assert_eq!(r.to_string(), "pkg@1.0-alpha");
    let r = Release::parse("pkg@99999999999999999999999.1").unwrap();
    assert_eq!(r.to_string(), "pkg@0.1");
    let r = Release::parse("2.0-").unwrap();
    assert_eq!(r.to_string(), "2.0");
}

#[test]
fn canonical_text_parses_to_the_same_release() {
    let hash_release = format!("myapp@{}", HASH_40);
    let texts = [
        "myapp@1.2.3",
        "myapp@1.0alpha",
        "myapp@1.0-",
        "  @scope@pkg@2.0  ",
        "@foo@1.0",
        "1.2.3",
        "1a",
        "a@b@c",
        "a@",
        "@",
        "",
        "plain text",
        "app@1.0.0+a86d127c4b2f",
        "app@1.0.0+20200101",
        "app@99999999999999999999999",
        "app@1234567890123-",
        hash_release.as_str(),
        HASH_40,
    ];
    for text in texts {
        let r = Release::parse(text).unwrap();
        let canonical = r.to_string();
        let again = Release::parse(&canonical).unwrap();
        assert_eq!(again.package(), r.package(), "{}", text);
        assert_eq!(again.build_hash(), r.build_hash(), "{}", text);
        assert_eq!(again.version().is_some(), r.version().is_some(), "{}", text);
        if let (Some(v), Some(w)) = (r.version(), again.version()) {
            assert_eq!(w.triple(), v.triple(), "{}", text);
            assert_eq!(w.pre(), v.pre(), "{}", text);
            assert_eq!(w.build_code(), v.build_code(), "{}", text);
            assert_eq!(w.components(), v.components(), "{}", text);
        }
        assert_eq!(again.to_string(), canonical, "{}", text);
    }
}

#[test]
fn canonical_text_can_read_as_a_hash() {
    let r = Release::parse("app@123456789012-").unwrap();
    assert_eq!(r.version().unwrap().major(), 123456789012);
    assert_eq!(r.build_hash(), None);
    let canonical = r.to_string();
    assert_eq!(canonical, "app@123456789012");
    let again = Release::parse(&canonical).unwrap();
    assert!(again.version().is_none());
    assert_eq!(again.build_hash(), Some("123456789012"));
}

#[test]
fn canonical_text_can_be_too_long() {
    let text = format!("{}@1.0alpha", "p".repeat(241));
    assert_eq!(text.len(), 250);
    let r = Release::parse(&text).unwrap();
    let canonical = r.to_string();
    assert_eq!(canonical.len(), 251);
    assert_eq!(Release::parse(&canonical), Err(InvalidRelease::TooLong));
}
