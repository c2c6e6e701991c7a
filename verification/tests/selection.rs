use self_update::errors::UpdateError;
use self_update::release::{Release, ReleaseAsset};
use self_update::release_list::ReleaseList;
use self_update::selection::{
    find_version, latest_index, retain_newer, retain_target, sort_oldest_first,
};
use self_update::update::Update;

fn release(name: &str, version: &str) -> Release {
    Release {
        name: name.to_string(),
        version: version.to_string(),
        date: "d".to_string(),
        assets: vec![ReleaseAsset {
            name: format!("{}-{}-linux.zip", name, version),
            download_url: "u".to_string(),
        }],
    }
}

fn list(versions: &[&str]) -> Vec<Release> {
    versions.iter().enumerate().map(|(i, v)| release(&format!("r{}", i), v)).collect()
}

fn names(releases: &[Release]) -> Vec<&str> {
    releases.iter().map(|r| r.name.as_str()).collect()
}

fn update() -> Update {
    let mut builder = Update::configure();
    builder.bucket_name("b").region("r").bin_name("app", "").current_version("1.0.0");
    builder.build(Ok("/bin/app".into()), "linux").unwrap()
}

#[test]
fn the_latest_release_is_the_greatest() {
    assert_eq!(latest_index(&list(&["1.0.0", "1.10.0", "1.9.0"])), 1);
    assert_eq!(latest_index(&list(&["2.0.0", "1.10.0", "1.9.0"])), 0);
    assert_eq!(latest_index(&list(&["1.0.0"])), 0);
    assert_eq!(latest_index(&list(&["1.0.0", "1.0.0-rc.1"])), 0);
}

#[test]
fn of_equal_versions_the_last_is_the_latest() {
    assert_eq!(latest_index(&list(&["1.0.0", "2.0.0", "2.0.0", "1.0.0"])), 2);
}

#[test]
fn an_unreadable_version_is_ignored() {
    assert_eq!(latest_index(&list(&["9.0.0", "01.0.0", "1.0.0"])), 0);
    assert_eq!(latest_index(&list(&["9.0.0", "1.0.0", "01.0.0"])), 0);
    assert_eq!(latest_index(&list(&["01.0.0", "2.0.0", "1.0.0"])), 1);
    assert_eq!(latest_index(&list(&["1.0.0", "1.00.0"])), 0);
    assert_eq!(latest_index(&list(&["x", "y", "1.0.0"])), 2);
    assert_eq!(latest_index(&list(&["1.0.0", "x", "2.0.0", "y", "2.0.0", "z"])), 4);
    let latest = update().get_latest_release(Ok(list(&["1.0.0", "1.00.0"]))).unwrap();
    assert_eq!(latest.version, "1.0.0");
}

#[test]
fn where_no_version_can_be_read_the_last_release_is_the_latest() {
    assert_eq!(latest_index(&list(&["x"])), 0);
    assert_eq!(latest_index(&list(&["x", "01.0.0", "y"])), 2);
}

#[test]
fn releases_are_found_by_version() {
    let releases = list(&["1.0.0", "2.0.0", "2.0.0"]);
    assert_eq!(find_version(&releases, &"2.0.0".to_string()), Some(1));
    assert_eq!(find_version(&releases, &"3.0.0".to_string()), None);
}

#[test]
fn releases_are_kept_by_target() {
    let mut releases = list(&["1.0.0", "2.0.0"]);
    releases[0].assets[0].name = "r0-windows".to_string();
    assert_eq!(names(&retain_target(releases, "linux")), ["r1"]);
}

#[test]
fn newer_releases_are_kept_and_sorted() {
    let releases = list(&["3.0.0", "1.0.0", "x", "2.0.0", "0.9.0", "10.0.0"]);
    let mut newer = retain_newer(&releases, "1.0.0");
    assert_eq!(names(&newer), ["r0", "r3", "r5"]);
    sort_oldest_first(&mut newer);
    assert_eq!(names(&newer), ["r3", "r0", "r5"]);
    assert!(retain_newer(&releases, "no version").is_empty());
}

#[test]
fn of_equal_versions_the_later_is_sorted_first() {
    let mut releases = list(&["2.0.0", "1.0.0", "2.0.0", "1.0.0"]);
    sort_oldest_first(&mut releases);
    assert_eq!(names(&releases), ["r3", "r1", "r2", "r0"]);
}

#[test]
fn an_update_chooses_the_latest_release() {
    let latest = update().get_latest_release(Ok(list(&["1.0.0", "1.2.0", "1.1.0"]))).unwrap();
    assert_eq!(latest.version, "1.2.0");
    assert_eq!(latest.name, "r1");
    match update().get_latest_release(Ok(vec![])) {
        Err(UpdateError::Release(text)) => assert_eq!(text, "No release was found"),
        _ => panic!("there is no release"),
    }
    let failed = Err(UpdateError::Network("n".to_string()));
    assert!(matches!(update().get_latest_release(failed), Err(UpdateError::Network(t)) if t == "n"));
}

#[test]
fn an_update_lists_newer_releases_oldest_first() {
    let newer =
        update().get_latest_releases("1.0.0", Ok(list(&["1.2.0", "1.0.0", "1.1.0"]))).unwrap();
    assert_eq!(names(&newer), ["r2", "r0"]);
    let failed = Err(UpdateError::Network("n".to_string()));
    let failed = update().get_latest_releases("1.0.0", failed);
    assert!(matches!(failed, Err(UpdateError::Network(t)) if t == "n"));
}

#[test]
fn an_update_finds_a_version() {
    let found = update().get_release_version("1.1.0", Ok(list(&["1.0.0", "1.1.0", "1.1.0"])));
    assert_eq!(found.unwrap().name, "r1");
    match update().get_release_version("7.0.0", Ok(list(&["1.0.0"]))) {
        Err(UpdateError::Release(text)) => {
            assert_eq!(text, "No release with version '7.0.0' was found")
        }
        _ => panic!("there is no such release"),
    }
    let failed = Err(UpdateError::Network("n".to_string()));
    let failed = update().get_release_version("1.0.0", failed);
    assert!(matches!(failed, Err(UpdateError::Network(t)) if t == "n"));
}

#[test]
fn a_list_keeps_the_releases_for_its_target() {
    let mut releases = list(&["1.0.0", "2.0.0"]);
    releases[1].assets[0].name = "r1-windows".to_string();
    let mut builder = ReleaseList::configure();
    builder.bucket_name("b");
    let all = builder.build().unwrap().fetch(Ok(releases.clone())).unwrap();
    assert_eq!(names(&all), ["r0", "r1"]);
    builder.with_target("windows");
    let kept = builder.build().unwrap().fetch(Ok(releases)).unwrap();
    assert_eq!(names(&kept), ["r1"]);
    let failed = builder.build().unwrap().fetch(Err(UpdateError::Network("n".to_string())));
    assert!(matches!(failed, Err(UpdateError::Network(t)) if t == "n"));
}
