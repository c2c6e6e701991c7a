use self_update::text::{contains_text, copy_text, split_first, take_until, trim_end, trim_start};

#[test]
fn text_is_found_wherever_it_stands() {
    assert!(contains_text("app-x86_64.tar.gz", "x86_64"));
    assert!(contains_text("app", "app"));
    assert!(contains_text("app", "pp"));
    assert!(contains_text("", ""));
    assert!(contains_text("app", ""));
    assert!(!contains_text("app", "apps"));
    assert!(!contains_text("aab", "aac"));
    assert!(contains_text("aaab", "aab"));
    assert!(contains_text("grün-ärm64", "ärm"));
}

#[test]
fn text_splits_at_the_first_stop() {
    assert_eq!(split_first("a:b:c", ':'), Some(("a", "b:c")));
    assert_eq!(split_first(":", ':'), Some(("", "")));
    assert_eq!(split_first("äö:ü", ':'), Some(("äö", "ü")));
    assert_eq!(split_first("abc", ':'), None);
    assert_eq!(take_until("a:b", ':'), "a");
    assert_eq!(take_until("ab", ':'), "ab");
}

#[test]
fn ends_are_trimmed_as_often_as_they_stand() {
    assert_eq!(trim_start("vv1.2", 'v'), "1.2");
    assert_eq!(trim_start("1.2v", 'v'), "1.2v");
    assert_eq!(trim_start("vvv", 'v'), "");
    assert_eq!(trim_end("host///", "/"), "host");
    assert_eq!(trim_end("app.exe.exe", ".exe"), "app");
    assert_eq!(trim_end("app", ""), "app");
    assert_eq!(trim_end("exe", ".exe"), "exe");
    assert_eq!(trim_end("abab", "ab"), "");
    for text in ["", "a", "a/", "/a//", "//"] {
        assert_eq!(trim_end(text, "/"), text.trim_end_matches('/'));
        assert_eq!(trim_start(text, '/'), text.trim_start_matches('/'));
        assert_eq!(trim_end(text, ""), text.trim_end_matches(""));
    }
}

#[test]
fn optional_text_is_copied() {
    assert_eq!(copy_text(&Some("a".to_string())), Some("a".to_string()));
    assert_eq!(copy_text(&None), None);
}
