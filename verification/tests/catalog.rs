use self_update::catalog::{add_to_releases_list, asset_name, process_s3_object, record_object};
use self_update::pattern::KeyPattern;
use self_update::release::{Release, ReleaseAsset};

fn asset(name: &str) -> ReleaseAsset {
    ReleaseAsset { name: name.to_string(), download_url: format!("https://host/{}", name) }
}

fn release(name: &str, version: &str, date: &str, assets: &[&str]) -> Release {
    Release {
        name: name.to_string(),
        version: version.to_string(),
        date: date.to_string(),
        assets: assets.iter().map(|a| asset(a)).collect(),
    }
}

fn asset_names(release: &Release) -> Vec<&str> {
    release.assets.iter().map(|a| a.name.as_str()).collect()
}

#[test]
fn a_new_release_is_put_at_the_end() {
    let mut list: Vec<Release> = Vec::new();
    add_to_releases_list(&mut list, release("app", "1.0.0", "d1", &["a"]));
    add_to_releases_list(&mut list, release("app", "1.0.1", "d2", &["b"]));
    add_to_releases_list(&mut list, release("other", "1.0.0", "d3", &["c"]));
    assert_eq!(list.len(), 3);
    assert_eq!(list[2].name, "other");
    assert_eq!(list[1].version, "1.0.1");
}

#[test]
fn a_known_release_is_merged_in_place() {
    let mut list: Vec<Release> = vec![
        release("app", "1.0.0", "d1", &["a", "b"]),
        release("app", "2.0.0", "d2", &["c"]),
    ];
    add_to_releases_list(&mut list, release("app", "1.0.0", "d9", &["x", "y"]));
    assert_eq!(list.len(), 2);
    assert_eq!(asset_names(&list[0]), ["x", "y", "a", "b"]);
    assert_eq!(list[0].date, "d9");
    assert_eq!(asset_names(&list[1]), ["c"]);
    add_to_releases_list(&mut list, release("app", "2.0.0", "d8", &["z"]));
    assert_eq!(asset_names(&list[1]), ["z", "c"]);
    assert_eq!(list[0].version, "1.0.0");
}

#[test]
fn a_release_without_name_or_version_is_not_added() {
    let mut list: Vec<Release> = Vec::new();
    add_to_releases_list(&mut list, release("", "1.0.0", "d", &["a"]));
    add_to_releases_list(&mut list, release("app", "", "d", &["a"]));
    assert!(list.is_empty());
}

#[test]
fn the_asset_is_named_by_the_file() {
    assert_eq!(asset_name("dir/sub/app.zip"), "app.zip");
    assert_eq!(asset_name("app.zip"), "app.zip");
    assert_eq!(asset_name("/app.zip"), "app.zip");
    assert_eq!(asset_name("dir/app.zip/"), "app.zip");
    assert_eq!(asset_name("dir/app.zip///"), "app.zip");
    assert_eq!(asset_name("a//b"), "b");
    assert_eq!(asset_name("dir/x:y"), "x:y");
    assert_eq!(asset_name("dir/..a"), "..a");
    assert_eq!(asset_name("dir/.."), "dir/..");
    assert_eq!(asset_name("dir/../"), "dir/../");
    assert_eq!(asset_name("/"), "/");
    assert_eq!(asset_name(""), "");
}

#[test]
fn segments_of_one_dot_at_the_end_are_no_names() {
    assert_eq!(asset_name("dir/app.zip/."), "app.zip");
    assert_eq!(asset_name("dir/app.zip/./"), "app.zip");
    assert_eq!(asset_name("app.zip/././/."), "app.zip");
    assert_eq!(asset_name("dir/./app.zip"), "app.zip");
    assert_eq!(asset_name("dir/app."), "app.");
    assert_eq!(asset_name("dir/../."), "dir/../.");
    assert_eq!(asset_name("."), ".");
    assert_eq!(asset_name("./."), "./.");
    assert_eq!(asset_name("/."), "/.");
    assert_eq!(asset_name("/./"), "/./");
    assert_eq!(asset_name("./app.zip/."), "app.zip");
}

#[test]
fn what_stands_before_the_last_segment_does_not_matter() {
    assert_eq!(asset_name("C:/app.zip"), "app.zip");
    assert_eq!(asset_name("C:dir/app.zip"), "app.zip");
    assert_eq!(asset_name("scheme:app.zip"), "scheme:app.zip");
    assert_eq!(asset_name("dir\\sub/app.zip"), "app.zip");
    assert_eq!(asset_name("\\dir/app.zip/."), "app.zip");
    assert_eq!(asset_name("C:/.."), "C:/..");
}

#[test]
fn an_object_makes_up_a_release() {
    let pattern = KeyPattern::new().unwrap();
    let mut list: Vec<Release> = Vec::new();
    let key = "dir/app-v1.2.3-x86_64-linux.tar.gz";
    assert!(process_s3_object(key, "2024-01-01T00:00:00Z", "b.host//", &pattern, &mut list).is_ok());
    assert!(process_s3_object("dir/readme.txt", "d", "b.host", &pattern, &mut list).is_ok());
    assert_eq!(list.len(), 1);
    assert_eq!(list[0].name, "app");
    assert_eq!(list[0].version, "1.2.3");
    assert_eq!(list[0].date, "2024-01-01T00:00:00Z");
    assert_eq!(asset_names(&list[0]), ["app-v1.2.3-x86_64-linux.tar.gz"]);
    assert_eq!(
        list[0].assets[0].download_url,
        "https://b.host/dir/app-v1.2.3-x86_64-linux.tar.gz"
    );
}

#[test]
fn what_is_captured_is_recorded() {
    let mut list: Vec<Release> = Vec::new();
    record_object("k", "d", "h/", "file".to_string(), None, &mut list);
    assert!(list.is_empty());
    let captured = Some(("n".to_string(), "vv7".to_string()));
    record_object("k", "d", "h/", "file".to_string(), captured, &mut list);
    assert_eq!(list.len(), 1);
    assert_eq!(list[0].name, "n");
    assert_eq!(list[0].version, "7");
    assert_eq!(list[0].assets[0].name, "file");
    assert_eq!(list[0].assets[0].download_url, "https://h/k");
    record_object("k", "d", "h/", "file".to_string(), Some(("n".to_string(), "v".to_string())), &mut list);
    assert_eq!(list.len(), 1);
}

#[test]
fn a_release_knows_its_targets() {
    let r = release("app", "1.0.0", "d", &["app-linux.zip", "app-windows.zip"]);
    assert!(r.has_target_asset("linux"));
    assert!(r.has_target_asset("windows"));
    assert!(!r.has_target_asset("darwin"));
    assert!(!release("app", "1.0.0", "d", &[]).has_target_asset(""));
    let copy = r.clone();
    assert_eq!(asset_names(&copy), asset_names(&r));
    assert_eq!(copy.date, "d");
    assert_eq!(copy.assets[1].clone().download_url, "https://host/app-windows.zip");
}
