use self_update::endpoint::EndPoint;
use self_update::errors::UpdateError;
use self_update::release_list::ReleaseList;
use self_update::update::{
    Update, UpdateBuilder, DEFAULT_PROGRESS_CHARS, DEFAULT_PROGRESS_TEMPLATE, PUBLIC_KEY_LENGTH,
};
use std::path::PathBuf;

fn exe() -> Result<PathBuf, String> {
    Ok(PathBuf::from("/usr/bin/app"))
}

fn config_text(result: Result<Update, UpdateError>) -> String {
    match result {
        Err(UpdateError::Config(text)) => text,
        other => panic!("{:?}", other),
    }
}

#[test]
fn a_release_list_needs_a_bucket() {
    match ReleaseList::configure().build() {
        Err(UpdateError::Config(text)) => assert_eq!(text, "`bucket_name` required"),
        other => panic!("{:?}", other),
    }
}

#[test]
fn a_release_list_lists_what_it_is_set_to() {
    let list = ReleaseList::configure()
        .bucket_name("first")
        .bucket_name("bucket")
        .region("ams3")
        .asset_prefix("dir/")
        .end_point(EndPoint::DigitalOceanSpaces)
        .auth_token("AK:SK")
        .with_target("linux")
        .clone()
        .build()
        .unwrap()
        .clone();
    let listing = list.listing().unwrap();
    assert_eq!(listing.next_request().bucket, "bucket");
    assert_eq!(listing.next_request().prefix, Some("dir/".to_string()));
    assert_eq!(listing.region(), "ams3");
    assert_eq!(
        listing.settings().endpoint_url,
        Some("https://ams3.digitaloceanspaces.com".to_string())
    );
    assert_eq!(listing.credentials().as_ref().unwrap().secret_key, "SK");
}

#[test]
fn a_release_list_without_region_lists_nothing() {
    let list = ReleaseList::configure().bucket_name("b").build().unwrap();
    match list.listing() {
        Err(UpdateError::Config(text)) => assert_eq!(text, "`region` required"),
        _ => panic!("no region is needed"),
    }
}

#[test]
fn an_update_has_its_defaults() {
    let mut builder = UpdateBuilder::new();
    builder.bucket_name("b").bin_name("app", ".exe").current_version("1.0.0");
    let update = builder.build(exe(), "x86_64-linux").unwrap();
    assert_eq!(update.target(), "x86_64-linux");
    assert_eq!(update.bin_name(), "app.exe");
    assert_eq!(update.bin_path_in_archive(), "app.exe");
    assert_eq!(update.bin_install_path(), PathBuf::from("/usr/bin/app"));
    assert_eq!(update.current_version(), "1.0.0");
    assert_eq!(update.target_version(), None);
    assert!(!update.show_download_progress());
    assert!(update.show_output());
    assert!(!update.no_confirm());
    assert_eq!(update.progress_template(), DEFAULT_PROGRESS_TEMPLATE);
    assert_eq!(update.progress_chars(), DEFAULT_PROGRESS_CHARS);
    assert_eq!(update.auth_token(), None);
    assert!(update.verifying_keys().is_empty());
    assert!(update.listing().is_err());
}

#[test]
fn an_update_is_what_it_is_set_to() {
    let mut builder = Update::configure();
    builder
        .end_point(EndPoint::S3DualStack)
        .bucket_name("b")
        .asset_prefix("p")
        .region("eu-1")
        .current_version("1.0.0")
        .target_version_tag("2.0.0")
        .target("arm")
        .bin_path_in_archive("bin/{{ bin }}")
        .bin_name("app", "")
        .bin_install_path(PathBuf::from("/opt/app"))
        .show_download_progress(true)
        .set_progress_style("t".to_string(), "c".to_string())
        .show_output(false)
        .no_confirm(true)
        .auth_token("AK:SK")
        .verifying_keys(vec![[7; PUBLIC_KEY_LENGTH], [8; PUBLIC_KEY_LENGTH]]);
    let update = builder.build(Err("unknown".to_string()), "x86").unwrap();
    assert_eq!(update.target(), "arm");
    assert_eq!(update.bin_name(), "app");
    assert_eq!(update.bin_path_in_archive(), "bin/{{ bin }}");
    assert_eq!(update.bin_install_path(), PathBuf::from("/opt/app"));
    assert_eq!(update.target_version(), Some("2.0.0".to_string()));
    assert!(update.show_download_progress());
    assert!(!update.show_output());
    assert!(update.no_confirm());
    assert_eq!(update.progress_template(), "t");
    assert_eq!(update.progress_chars(), "c");
    assert_eq!(update.auth_token(), Some("AK:SK".to_string()));
    assert_eq!(update.verifying_keys(), [[7; PUBLIC_KEY_LENGTH], [8; PUBLIC_KEY_LENGTH]]);
    let listing = update.listing().unwrap();
    assert!(listing.settings().use_dual_stack);
    assert_eq!(listing.next_request().prefix, Some("p".to_string()));
    assert_eq!(listing.credentials().as_ref().unwrap().access_key, "AK");
}

#[test]
fn an_update_tells_what_is_missing() {
    let mut builder = Update::configure();
    match builder.build(Err("no path".to_string()), "x86") {
        Err(UpdateError::Io(text)) => assert_eq!(text, "no path"),
        other => panic!("{:?}", other),
    }
    assert_eq!(config_text(builder.build(exe(), "x86")), "`bucket_name` required");
    builder.bucket_name("b");
    assert_eq!(config_text(builder.build(exe(), "x86")), "`bin_name` required");
    builder.bin_path_in_archive("p");
    assert_eq!(config_text(builder.build(exe(), "x86")), "`bin_name` required");
    builder.bin_name("app", "");
    assert_eq!(config_text(builder.build(exe(), "x86")), "`current_version` required");
    builder.current_version("1.0.0");
    assert!(builder.build(exe(), "x86").is_ok());
}

#[test]
fn the_suffix_of_an_executable_stands_once() {
    for name in ["app", "app.exe", "app.exe.exe"] {
        let mut builder = Update::configure();
        builder.bucket_name("b").current_version("1.0.0").bin_name(name, ".exe");
        let update = builder.build(exe(), "x86").unwrap();
        assert_eq!(update.bin_name(), "app.exe");
        assert_eq!(update.bin_path_in_archive(), "app.exe");
    }
}

#[test]
fn a_later_name_keeps_the_path_in_the_archive() {
    let mut builder = Update::configure();
    builder.bucket_name("b").current_version("1.0.0").bin_name("one", "").bin_name("two", "");
    let update = builder.build(exe(), "x86").unwrap();
    assert_eq!(update.bin_name(), "two");
    assert_eq!(update.bin_path_in_archive(), "one");
}

#[test]
fn verifying_keys_have_the_length_of_public_keys() {
    assert_eq!(PUBLIC_KEY_LENGTH, zipsign_api::PUBLIC_KEY_LENGTH);
}
