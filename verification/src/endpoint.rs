//! The services that hold buckets, and how each is addressed.

use vstd::prelude::*;

use crate::errors::UpdateError;

verus! {

/// The service end point.
///
/// Currently S3, GCS, and DigitalOcean Spaces supported.
#[allow(clippy::upper_case_acronyms)]
#[derive(Clone, Copy, Debug, PartialEq, Eq, Structural)]
pub enum EndPoint {
    S3,
    S3DualStack,
    GCS,
    DigitalOceanSpaces,
}

impl Default for EndPoint {
    fn default() -> (end_point: Self)
        ensures
            end_point == EndPoint::S3,
    {
        EndPoint::S3
    }
}

/// The host and path under which the objects of a bucket are found.
pub open spec fn download_base_url(
    end_point: EndPoint,
    bucket_name: Seq<char>,
    region: Seq<char>,
) -> Seq<char> {
    match end_point {
        EndPoint::S3 => bucket_name + ".s3."@ + region + ".amazonaws.com"@,
        EndPoint::S3DualStack => bucket_name + ".s3.dualstack."@ + region + ".amazonaws.com"@,
        EndPoint::GCS => bucket_name + ".storage.googleapis.com"@,
        EndPoint::DigitalOceanSpaces => bucket_name + "."@ + region + ".digitaloceanspaces.com"@,
    }
}

/// The host and path under which the objects of a bucket are found. It never fails.
pub fn get_download_base_url(end_point: EndPoint, bucket_name: &str, region: &str) -> (url: Result<
    String,
    UpdateError,
>)
    ensures
        url is Ok,
        url matches Ok(text) ==> text@ == download_base_url(end_point, bucket_name@, region@),
{
    let bucket = bucket_name.to_owned();
    Ok(
        match end_point {
            EndPoint::S3 => bucket.concat(".s3.").concat(region).concat(".amazonaws.com"),
            EndPoint::S3DualStack => bucket.concat(".s3.dualstack.").concat(region).concat(
                ".amazonaws.com",
            ),
            EndPoint::GCS => bucket.concat(".storage.googleapis.com"),
            EndPoint::DigitalOceanSpaces => bucket.concat(".").concat(region).concat(
                ".digitaloceanspaces.com",
            ),
        },
    )
}

/// What a client for a service is set to beside the loaded configuration.
#[derive(Debug)]
pub struct ClientSettings {
    /// Address the dual-stack variant of the service.
    pub use_dual_stack: bool,
    /// Address this service in place of the one that the region selects.
    pub endpoint_url: Option<String>,
}

/// What a [`ClientSettings`] holds.
pub struct ClientSettingsView {
    pub use_dual_stack: bool,
    pub endpoint_url: Option<Seq<char>>,
}

impl View for ClientSettings {
    type V = ClientSettingsView;

    open spec fn view(&self) -> ClientSettingsView {
        ClientSettingsView {
            use_dual_stack: self.use_dual_stack,
            endpoint_url: match self.endpoint_url {
                Some(url) => Some(url@),
                None => None,
            },
        }
    }
}

/// How a client reaches the service of `end_point`: S3 with nothing set, its dual-stack
/// variant by the switch, the other services by their address.
pub open spec fn client_settings(end_point: EndPoint, region: Seq<char>) -> ClientSettingsView {
    ClientSettingsView {
        use_dual_stack: end_point == EndPoint::S3DualStack,
        endpoint_url: match end_point {
            EndPoint::S3 => None,
            EndPoint::S3DualStack => None,
            EndPoint::GCS => Some("https://storage.googleapis.com"@),
            EndPoint::DigitalOceanSpaces => Some(
                "https://"@ + region + ".digitaloceanspaces.com"@,
            ),
        },
    }
}

/// How a client reaches the service of `end_point` in `region`.
pub fn get_client_settings(end_point: EndPoint, region: &str) -> (settings: ClientSettings)
    ensures
        settings@ == client_settings(end_point, region@),
{
    match end_point {
        EndPoint::S3 => ClientSettings { use_dual_stack: false, endpoint_url: None },
        EndPoint::S3DualStack => ClientSettings { use_dual_stack: true, endpoint_url: None },
        EndPoint::GCS => ClientSettings {
            use_dual_stack: false,
            endpoint_url: Some("https://storage.googleapis.com".to_owned()),
        },
        EndPoint::DigitalOceanSpaces => ClientSettings {
            use_dual_stack: false,
            endpoint_url: Some(
                "https://".to_owned().concat(region).concat(".digitaloceanspaces.com"),
            ),
        },
    }
}

/// The objects of a bucket are found under a host that the service, the bucket and, but
/// for Google's, the region name.
pub proof fn hosts_are_named_by_bucket_and_region(bucket_name: Seq<char>, region: Seq<char>)
    ensures
        download_base_url(EndPoint::S3, bucket_name, region) == bucket_name + ".s3."@ + region
            + ".amazonaws.com"@,
        download_base_url(EndPoint::S3DualStack, bucket_name, region) == bucket_name
            + ".s3.dualstack."@ + region + ".amazonaws.com"@,
        download_base_url(EndPoint::GCS, bucket_name, region) == bucket_name
            + ".storage.googleapis.com"@,
        download_base_url(EndPoint::DigitalOceanSpaces, bucket_name, region) == bucket_name + "."@
            + region + ".digitaloceanspaces.com"@,
{
}

/// A client reaches S3 by the region alone, its dual-stack variant by the switch, and each
/// other service by its own address over `https`.
pub proof fn services_are_reached_by_their_address(end_point: EndPoint, region: Seq<char>)
    ensures
        client_settings(end_point, region).use_dual_stack <==> end_point is S3DualStack,
        client_settings(end_point, region).endpoint_url is None <==> (end_point is S3
            || end_point is S3DualStack),
        end_point is GCS ==> client_settings(end_point, region).endpoint_url == Some(
            "https://storage.googleapis.com"@,
        ),
        end_point is DigitalOceanSpaces ==> client_settings(end_point, region).endpoint_url == Some(
            "https://"@ + region + ".digitaloceanspaces.com"@,
        ),
{
}

/// What the settings of a client show is what they hold.
pub proof fn settings_show_what_they_hold(settings: ClientSettings)
    ensures
        settings@.use_dual_stack == settings.use_dual_stack,
        settings.endpoint_url matches Some(url) ==> settings@.endpoint_url == Some(url@),
        settings.endpoint_url is None ==> settings@.endpoint_url is None,
{
}

} // verus!
