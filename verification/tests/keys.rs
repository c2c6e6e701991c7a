use self_update::pattern::{KeyPattern, RELEASE_KEY_PATTERN};

fn read(key: &str) -> Option<(String, String)> {
    KeyPattern::new().unwrap().read_release(key)
}

fn pair(name: &str, version: &str) -> Option<(String, String)> {
    Some((name.to_string(), version.to_string()))
}

#[test]
fn a_published_key_gives_back_its_parts() {
    let pattern = KeyPattern::new().unwrap();
    for directory in ["", "releases/", "a/b/", "/", "x-1.0.0-y/", "//", "a b/.../"] {
        for name in ["app", "my-app", "my-app-2.0.0-old", "a", "-", "Grün", "a-v1.2.3-b", "v1.0.0"] {
            for marker in ["", "v", "V"] {
                for version in ["1.2.3", "0.0.0", "01.2.3", "10.20.30"] {
                    for rest in [
                        "x86_64-unknown-linux-gnu.tar.gz", "w", "windows.zip", "-", "x-", "a1.2.3",
                        ".1.2.3", "x.1.2.3-y", "64bit", "vxworks-x", "2-x", "v", "1.2.3", "x-1.2.3",
                        "x-1.2.3-", "1.2-x-3", "v1.2.x-y", "1.2.3.4-x", "vv1.2.3-x", "1..2-x",
                    ] {
                        let key =
                            format!("{}{}-{}{}-{}", directory, name, marker, version, rest);
                        assert_eq!(pattern.read_release(&key), pair(name, version), "{}", key);
                    }
                }
            }
        }
    }
}

#[test]
fn other_keys_hold_no_release() {
    for key in [
        "", "app", "app-1.2.3", "app-1.2.3-", "-1.2.3-x", "app-1.2-x", "app_1.2.3-x",
        "app-1.2.3.tar.gz", "app-vv1.2.3-x", "\n-1.2.3-x", "app-1.2.3-\n",
    ] {
        assert_eq!(read(key), None, "{}", key);
    }
}

#[test]
fn a_version_between_dashes_is_always_read() {
    assert_eq!(read("app-1.2.3-2.0.0-x"), pair("app-1.2.3", "2.0.0"));
    assert_eq!(read("app-1.2.3-x-v2.0.0-y"), pair("app-1.2.3-x", "2.0.0"));
    assert_eq!(read("app-1.2.3-V2.0.0--"), pair("app-1.2.3", "2.0.0"));
    assert_eq!(read("app-1.2.3-\u{0661}.0.0-x"), pair("app-1.2.3", "\u{0661}.0.0"));
    assert_eq!(read("a\nb-1.2.3-x"), pair("b", "1.2.3"));
    assert_eq!(read("app-1.2.3-x/y"), pair("app", "1.2.3"));
    assert_eq!(read("app-1.2.3-x/"), pair("app", "1.2.3"));
    assert_eq!(read("app-\u{0661}.2.3-x"), pair("app", "\u{0661}.2.3"));
}

fn is_number(text: &str) -> bool {
    let parts: Vec<&str> = text.split('.').collect();
    parts.len() == 3
        && parts.iter().all(|p| !p.is_empty() && p.chars().all(|c| c.is_ascii_digit()))
}

/// Whether a version of ASCII digits stands between dashes, by trying all pieces.
fn holds_version(key: &str) -> bool {
    let chars: Vec<char> = key.chars().collect();
    for start in 1..chars.len() {
        if chars[start] != '-' || chars[start - 1] == '\n' {
            continue;
        }
        for end in start + 1..chars.len().saturating_sub(1) {
            if chars[end] != '-' || chars[end + 1] == '\n' {
                continue;
            }
            let piece: String = chars[start + 1..end].iter().collect();
            let bare = piece.strip_prefix(['v', 'V']).unwrap_or(piece.as_str());
            if is_number(bare) {
                return true;
            }
        }
    }
    false
}

#[test]
fn readings_are_faithful_to_the_pattern() {
    let pieces = [
        "a", "-", "-", "v", "V", "1", ".", "1.2.3", "-1.2.3-", "-v4.5.6-", "/", "\n", "x-", "é", "b",
        "\u{0663}", "2.3",
    ];
    let pattern = KeyPattern::new().unwrap();
    let mut seed: u64 = 1;
    let mut found: usize = 0;
    for _ in 0..4000 {
        let mut key = String::new();
        let mut left: u64 = 0;
        loop {
            seed = seed.wrapping_mul(6364136223846793005).wrapping_add(1442695040888963407);
            if left == 0 {
                left = 2 + (seed >> 33) % 8;
                continue;
            }
            key.push_str(pieces[((seed >> 33) as usize) % pieces.len()]);
            left -= 1;
            if left == 0 {
                break;
            }
        }
        match pattern.read_release(&key) {
            Some((name, version)) => {
                found += 1;
                assert!(!name.is_empty() && !name.contains('\n'), "{:?}", key);
                let rows: Vec<&str> = version.split('.').collect();
                assert_eq!(rows.len(), 3, "{:?}", key);
                for row in rows {
                    assert!(!row.is_empty(), "{:?}", key);
                    assert!(row.chars().all(|c| !c.is_ascii() || c.is_ascii_digit()), "{:?}", key);
                }
                let stands = ["", "v", "V"]
                    .iter()
                    .any(|m| key.contains(&format!("{}-{}{}-", name, m, version)));
                assert!(stands, "{:?}", key);
            }
            None => assert!(!holds_version(&key), "{:?}", key),
        }
    }
    assert!(found > 100);
}

#[test]
fn the_pattern_is_accepted() {
    assert!(regex::Regex::new(RELEASE_KEY_PATTERN).is_ok());
    assert!(KeyPattern::new().is_ok());
}
