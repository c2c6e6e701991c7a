use self_update::endpoint::EndPoint;
use self_update::errors::UpdateError;
use self_update::listing::{
    fetch_releases_from_s3, fetch_releases_with_aws_sdk, ListPage, Listing, ObjectSummary, Progress,
    MAX_KEYS,
};
use self_update::release::Release;

fn some(text: &str) -> Option<String> {
    Some(text.to_string())
}

fn object(key: &str, date: &str) -> ObjectSummary {
    ObjectSummary { key: some(key), last_modified: some(date) }
}

fn start() -> Listing {
    fetch_releases_from_s3(
        EndPoint::S3,
        "bucket",
        &some("eu-1"),
        &some("dir/"),
        &some("AK:SK"),
    )
    .unwrap()
}

fn page(objects: Vec<ObjectSummary>, next: Option<&str>) -> ListPage {
    ListPage { objects, next_continuation_token: next.map(|t| t.to_string()) }
}

fn more(progress: Result<Progress, UpdateError>) -> Listing {
    match progress {
        Ok(Progress::More(listing)) => listing,
        _ => panic!("the list ended"),
    }
}

fn complete(progress: Result<Progress, UpdateError>) -> Vec<Release> {
    match progress {
        Ok(Progress::Complete(releases)) => releases,
        _ => panic!("the list goes on"),
    }
}

#[test]
fn a_listing_needs_a_region() {
    match fetch_releases_from_s3(EndPoint::S3, "bucket", &None, &None, &None) {
        Err(UpdateError::Config(text)) => assert_eq!(text, "`region` required"),
        _ => panic!("no region is needed"),
    }
}

#[test]
fn a_listing_starts_with_its_first_request() {
    let listing = start();
    assert_eq!(listing.region(), "eu-1");
    assert_eq!(listing.credentials().as_ref().unwrap().access_key, "AK");
    assert_eq!(listing.credentials().as_ref().unwrap().secret_key, "SK");
    assert_eq!(listing.settings().endpoint_url, None);
    let request = listing.next_request();
    assert_eq!(request.bucket, "bucket");
    assert_eq!(request.max_keys, 100);
    assert_eq!(MAX_KEYS, 100);
    assert_eq!(request.prefix, some("dir/"));
    assert_eq!(request.continuation_token, None);
    let plain =
        fetch_releases_with_aws_sdk(EndPoint::GCS, "bucket", "eu-1", &None, &None).unwrap();
    assert!(plain.credentials().is_none());
    assert_eq!(plain.next_request().prefix, None);
    assert_eq!(plain.settings().endpoint_url, some("https://storage.googleapis.com"));
}

#[test]
fn a_listing_goes_on_where_the_page_says() {
    let listing = more(start().receive(Ok(page(vec![], Some("next")))));
    assert_eq!(listing.next_request().continuation_token, some("next"));
    assert_eq!(listing.next_request().prefix, some("dir/"));
    let listing = more(listing.receive(Ok(page(vec![], Some("last")))));
    assert_eq!(listing.next_request().continuation_token, some("last"));
    assert!(complete(listing.receive(Ok(page(vec![], None)))).is_empty());
}

#[test]
fn pages_make_up_one_list() {
    let first = vec![
        object("dir/app-1.0.0-linux.zip", "d1"),
        ObjectSummary { key: None, last_modified: some("d2") },
        object("dir/notes.txt", "d3"),
    ];
    let second = vec![
        ObjectSummary { key: some("dir/app-1.0.0-windows.zip"), last_modified: None },
        object("dir/app-1.1.0-linux.zip", "d5"),
    ];
    let listing = more(start().receive(Ok(page(first, Some("t")))));
    let releases = complete(listing.receive(Ok(page(second, None))));
    assert_eq!(releases.len(), 2);
    assert_eq!(releases[0].version, "1.0.0");
    assert_eq!(releases[0].date, "");
    assert_eq!(releases[0].assets.len(), 2);
    assert_eq!(releases[0].assets[0].name, "app-1.0.0-windows.zip");
    assert_eq!(releases[0].assets[1].name, "app-1.0.0-linux.zip");
    assert_eq!(
        releases[0].assets[1].download_url,
        "https://bucket.s3.eu-1.amazonaws.com/dir/app-1.0.0-linux.zip"
    );
    assert_eq!(releases[1].version, "1.1.0");
    assert_eq!(releases[1].date, "d5");
}

#[test]
fn how_the_list_is_paged_does_not_matter() {
    let keys = ["a-1.0.0-x", "b-1.0.0-x/.", "a-1.0.0-y", "a-2.0.0-x\\y", "b-1.0.0-64bit"];
    let objects = |from: usize, to: usize| -> Vec<ObjectSummary> {
        keys[from..to].iter().map(|k| object(k, "d")).collect()
    };
    let whole = complete(start().receive(Ok(page(objects(0, 5), None))));
    for cut in 0..6 {
        let listing = more(start().receive(Ok(page(objects(0, cut), Some("t")))));
        let parts = complete(listing.receive(Ok(page(objects(cut, 5), None))));
        assert_eq!(format!("{:?}", parts), format!("{:?}", whole));
    }
    assert_eq!(whole.len(), 3);
    let mut listing = more(start().receive(Ok(page(vec![], Some("t")))));
    for i in 0..5 {
        listing = more(listing.receive(Ok(page(objects(i, i + 1), Some("t")))));
        listing = more(listing.receive(Ok(page(vec![], Some("t")))));
    }
    let parts = complete(listing.receive(Ok(page(vec![], None))));
    assert_eq!(format!("{:?}", parts), format!("{:?}", whole));
}

#[test]
fn objects_are_at_the_host_of_their_bucket() {
    let hosts = [
        (EndPoint::S3, "bucket.s3.eu-1.amazonaws.com"),
        (EndPoint::S3DualStack, "bucket.s3.dualstack.eu-1.amazonaws.com"),
        (EndPoint::GCS, "bucket.storage.googleapis.com"),
        (EndPoint::DigitalOceanSpaces, "bucket.eu-1.digitaloceanspaces.com"),
    ];
    for (end_point, host) in hosts {
        let listing =
            fetch_releases_with_aws_sdk(end_point, "bucket", "eu-1", &None, &None).unwrap();
        let objects = vec![object("dir/app-1.0.0-linux.zip", "d")];
        let releases = complete(listing.receive(Ok(page(objects, None))));
        assert_eq!(
            releases[0].assets[0].download_url,
            format!("https://{}/dir/app-1.0.0-linux.zip", host)
        );
    }
}

#[test]
fn listed_versions_are_three_numbers() {
    let keys = ["app-1.0.0-linux", "app-1.2-linux", "app-1.0.0.0-linux", "app-v2.0.0-linux", "x"];
    let objects = keys.iter().map(|k| object(k, "d")).collect();
    let releases = complete(start().receive(Ok(page(objects, None))));
    let versions: Vec<&str> = releases.iter().map(|r| r.version.as_str()).collect();
    assert_eq!(versions, ["1.0.0", "2.0.0"]);
    assert!(releases.iter().all(|r| !r.assets.is_empty()));
}

#[test]
fn a_failed_request_fails_the_listing() {
    match start().receive(Err("denied".to_string())) {
        Err(UpdateError::Network(text)) => assert_eq!(text, "Failed to list S3 objects: denied"),
        _ => panic!("the failure is lost"),
    }
}
