use self_update::credentials::{parse_credentials, PROVIDER_NAME};
use self_update::endpoint::{get_client_settings, get_download_base_url, EndPoint};
use self_update::errors::{list_error, runtime_error, UpdateError};

#[test]
fn each_end_point_has_its_base_url() {
    let url = |end_point: EndPoint| get_download_base_url(end_point, "b", "eu-1").unwrap();
    assert_eq!(url(EndPoint::S3), "b.s3.eu-1.amazonaws.com");
    assert_eq!(url(EndPoint::S3DualStack), "b.s3.dualstack.eu-1.amazonaws.com");
    assert_eq!(url(EndPoint::GCS), "b.storage.googleapis.com");
    assert_eq!(url(EndPoint::DigitalOceanSpaces), "b.eu-1.digitaloceanspaces.com");
}

#[test]
fn each_end_point_has_its_client_settings() {
    let s3 = get_client_settings(EndPoint::S3, "eu-1");
    assert!(!s3.use_dual_stack);
    assert_eq!(s3.endpoint_url, None);
    let dual = get_client_settings(EndPoint::S3DualStack, "eu-1");
    assert!(dual.use_dual_stack);
    assert_eq!(dual.endpoint_url, None);
    let gcs = get_client_settings(EndPoint::GCS, "eu-1");
    assert!(!gcs.use_dual_stack);
    assert_eq!(gcs.endpoint_url, Some("https://storage.googleapis.com".to_string()));
    let spaces = get_client_settings(EndPoint::DigitalOceanSpaces, "eu-1");
    assert!(!spaces.use_dual_stack);
    assert_eq!(spaces.endpoint_url, Some("https://eu-1.digitaloceanspaces.com".to_string()));
}

#[test]
fn the_default_end_point_is_s3() {
    assert_eq!(EndPoint::default(), EndPoint::S3);
}

fn keys(token: &str) -> Option<(String, String)> {
    parse_credentials(&Some(token.to_string())).map(|pair| (pair.access_key, pair.secret_key))
}

#[test]
fn a_token_writes_two_keys() {
    assert_eq!(keys("ACCESS:SECRET"), Some(("ACCESS".to_string(), "SECRET".to_string())));
    assert_eq!(keys(":"), Some((String::new(), String::new())));
    assert_eq!(keys("a:b:c"), Some(("a".to_string(), "b".to_string())));
    assert_eq!(keys("token"), None);
    assert!(parse_credentials(&None).is_none());
    assert_eq!(PROVIDER_NAME, "self_update-provided");
}

#[test]
fn network_errors_tell_what_failed() {
    match runtime_error("no threads") {
        UpdateError::Network(text) => {
            assert_eq!(text, "Failed to create async runtime: no threads")
        }
        other => panic!("{:?}", other),
    }
    match list_error("denied") {
        UpdateError::Network(text) => assert_eq!(text, "Failed to list S3 objects: denied"),
        other => panic!("{:?}", other),
    }
}
