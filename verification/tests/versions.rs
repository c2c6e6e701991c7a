use self_update::errors::UpdateError;
use self_update::version::bump_is_greater;

#[test]
fn versions_compare_by_their_numbers() {
    assert!(bump_is_greater("1.2.0", "1.2.3").unwrap());
    assert!(bump_is_greater("0.9.9", "1.0.0").unwrap());
    assert!(bump_is_greater("1.9.0", "1.10.0").unwrap());
    assert!(!bump_is_greater("1.2.3", "1.2.3").unwrap());
    assert!(!bump_is_greater("1.2.3", "1.2.0").unwrap());
    assert!(bump_is_greater("0.0.0", "18446744073709551615.0.0").unwrap());
}

#[test]
fn pre_releases_come_before_their_release() {
    assert!(bump_is_greater("1.0.0-alpha", "1.0.0").unwrap());
    assert!(bump_is_greater("1.0.0-alpha", "1.0.0-alpha.1").unwrap());
    assert!(!bump_is_greater("1.0.0", "1.0.0-rc.1").unwrap());
    assert!(bump_is_greater("1.0.0", "1.0.0+build").unwrap());
}

#[test]
fn texts_that_are_no_versions_fail() {
    for text in [
        "", "1", "1.2", "1.2.3.4", "01.2.3", "1.02.3", "1.2.x", "v1.2.3", " 1.2.3", "1.2.",
        "18446744073709551616.0.0", "1..2", "\u{0661}.2.3",
    ] {
        assert!(matches!(bump_is_greater(text, "1.0.0"), Err(UpdateError::SemVer(_))), "{}", text);
        assert!(matches!(bump_is_greater("1.0.0", text), Err(UpdateError::SemVer(_))), "{}", text);
    }
}

#[test]
fn the_order_of_versions_is_total() {
    let versions = [
        "0.1.0", "0.1.1-a", "0.1.1-a.1", "0.1.1-a.b", "0.1.1-b", "0.1.1-rc.2", "0.1.1-rc.11",
        "0.1.1", "0.1.1+1", "0.1.1+01", "0.1.1+a", "1.0.0",
    ];
    for (i, a) in versions.iter().enumerate() {
        for (j, b) in versions.iter().enumerate() {
            assert_eq!(bump_is_greater(a, b).unwrap(), j > i, "{} {}", a, b);
        }
    }
}
