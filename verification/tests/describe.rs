use release_parser::Release;

fn describe(text: &str) -> String {
    Release::parse(text).unwrap().describe().to_string()
}

#[test]
fn describes_a_plain_version() {
    assert_eq!(describe("myapp@1.2.3"), "1.2.3");
    assert_eq!(describe("myapp@1.2"), "1.2");
    assert_eq!(describe("myapp@1"), "1");
}

#[test]
fn describes_a_pre_release() {
    assert_eq!(describe("myapp@1.2.3-rc.1"), "1.2.3-rc.1");
    assert_eq!(describe("myapp@1.2beta"), "1.2-beta");
    assert_eq!(describe("myapp@1.2-"), "1.2");
}

#[test]
fn describes_build_code_in_brackets() {
    assert_eq!(describe("myapp@1.2.3+20200101"), "1.2.3 (20200101)");
    assert_eq!(describe("myapp@1.2.3-rc1+7"), "1.2.3-rc1 (7)");
}

#[test]
fn describes_hash_build_code_cut_to_twelve() {
    assert_eq!(
        describe("myapp@1.0.0+a86d127c4b2f23a0a862620280427dcc14b1a2c9"),
        "1.0.0 (a86d127c4b2f)"
    );
    assert_eq!(describe("myapp@1.0.0-rc1+a86d127c4b2f23a0"), "1.0.0-rc1 (a86d127c4b2f)");
    assert_eq!(describe("myapp@1.0.0+a86d127c4b2f"), "1.0.0 (a86d127c4b2f)");
}

#[test]
fn describes_a_bare_hash_cut_to_twelve() {
    assert_eq!(describe("myapp@a86d127c4b2f23a0a862620280427dcc14b1a2c9"), "a86d127c4b2f");
    assert_eq!(describe("a86d127c4b2f23a0a862620280427dcc14b1a2c9"), "a86d127c4b2f");
    assert_eq!(describe("myapp@a86d127c4b2f"), "a86d127c4b2f");
    for n in [12, 16, 20, 32, 40, 64] {
        let hash = "0123456789abcdef".repeat(4)[..n].to_string();
        let d = describe(&format!("pkg@{}", hash));
        assert_eq!(d, "0123456789ab");
        assert!(d.len() <= 12);
    }
}

#[test]
fn describes_other_text_by_the_canonical_text() {
    assert_eq!(describe("myapp@some-thing"), "myapp@some-thing");
    assert_eq!(describe("just text"), "just text");
    assert_eq!(describe("myapp@a86d127"), "myapp@a86d127");
    assert_eq!(describe("a@"), "a@");
    assert_eq!(describe(""), "");
}

#[test]
fn describes_a_version_without_its_package() {
    assert_eq!(describe("1.2.3"), "1.2.3");
    assert_eq!(describe("org.example.app@1.2.3"), "1.2.3");
}
