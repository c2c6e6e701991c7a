//! Listing the releases of a bucket.

use vstd::prelude::*;

use crate::endpoint::EndPoint;
use crate::errors::{config_error, ErrorView, UpdateError};
use crate::listing::{fetch_releases_from_s3, fresh_listing, Listing};
use crate::release::{
    release_views, target_stands_in_an_asset_name, Release, ReleaseView,
};
use crate::selection::{
    for_target, retain_target, target_decides, targets_are_chosen_one_by_one,
};
use crate::text::{copy_text, text_of};

verus! {

/// `ReleaseList` Builder
#[derive(Debug)]
pub struct ReleaseListBuilder {
    end_point: EndPoint,
    bucket_name: Option<String>,
    asset_prefix: Option<String>,
    target: Option<String>,
    region: Option<String>,
    auth_token: Option<String>,
}

/// What a [`ReleaseListBuilder`] is set to.
pub struct ReleaseListBuilderView {
    pub end_point: EndPoint,
    pub bucket_name: Option<Seq<char>>,
    pub asset_prefix: Option<Seq<char>>,
    pub target: Option<Seq<char>>,
    pub region: Option<Seq<char>>,
    pub auth_token: Option<Seq<char>>,
}

impl View for ReleaseListBuilder {
    type V = ReleaseListBuilderView;

    closed spec fn view(&self) -> ReleaseListBuilderView {
        ReleaseListBuilderView {
            end_point: self.end_point,
            bucket_name: text_of(self.bucket_name),
            asset_prefix: text_of(self.asset_prefix),
            target: text_of(self.target),
            region: text_of(self.region),
            auth_token: text_of(self.auth_token),
        }
    }
}

impl Clone for ReleaseListBuilder {
    fn clone(&self) -> (copy: Self)
        ensures
            copy@ == self@,
    {
        ReleaseListBuilder {
            end_point: self.end_point,
            bucket_name: copy_text(&self.bucket_name),
            asset_prefix: copy_text(&self.asset_prefix),
            target: copy_text(&self.target),
            region: copy_text(&self.region),
            auth_token: copy_text(&self.auth_token),
        }
    }
}

impl ReleaseListBuilder {
    /// Set the bucket name, used to build an S3 api url
    pub fn bucket_name(&mut self, name: &str) -> (this: &mut Self)
        ensures
            this@ == (ReleaseListBuilderView { bucket_name: Some(name@), ..old(self)@ }),
            *final(self) == *final(this),
    {
        self.bucket_name = Some(name.to_owned());
        self
    }

    /// Set the optional asset name prefix, used to filter available assets with a prefix string
    pub fn asset_prefix(&mut self, prefix: &str) -> (this: &mut Self)
        ensures
            this@ == (ReleaseListBuilderView { asset_prefix: Some(prefix@), ..old(self)@ }),
            *final(self) == *final(this),
    {
        self.asset_prefix = Some(prefix.to_owned());
        self
    }

    /// Set the S3 region used in the download url
    pub fn region(&mut self, region: &str) -> (this: &mut Self)
        ensures
            this@ == (ReleaseListBuilderView { region: Some(region@), ..old(self)@ }),
            *final(self) == *final(this),
    {
        self.region = Some(region.to_owned());
        self
    }

    /// Set the end point
    pub fn end_point(&mut self, end_point: EndPoint) -> (this: &mut Self)
        ensures
            this@ == (ReleaseListBuilderView { end_point, ..old(self)@ }),
            *final(self) == *final(this),
    {
        self.end_point = end_point;
        self
    }

    /// Set the optional arch `target` name, used to filter available releases
    pub fn with_target(&mut self, target: &str) -> (this: &mut Self)
        ensures
            this@ == (ReleaseListBuilderView { target: Some(target@), ..old(self)@ }),
            *final(self) == *final(this),
    {
        self.target = Some(target.to_owned());
        self
    }

    /// Set the authorization token or AWS credentials, used in requests to the S3 API
    ///
    /// For AWS S3 buckets that require authentication, provide credentials in the format
    /// "ACCESS_KEY:SECRET_KEY". It is recommended to obtain them from the environment or
    /// from the user, and not to bake them into a program.
    pub fn auth_token(&mut self, auth_token: &str) -> (this: &mut Self)
        ensures
            this@ == (ReleaseListBuilderView { auth_token: Some(auth_token@), ..old(self)@ }),
            *final(self) == *final(this),
    {
        self.auth_token = Some(auth_token.to_owned());
        self
    }

    /// Verify builder args, returning a `ReleaseList`
    ///
    /// Fails where no bucket is named.
    pub fn build(&self) -> (list: Result<ReleaseList, UpdateError>)
        ensures
            list is Ok <==> self@.bucket_name is Some,
            list matches Ok(built) ==> built@ == (ReleaseListView {
                end_point: self@.end_point,
                bucket_name: self@.bucket_name->0,
                asset_prefix: self@.asset_prefix,
                target: self@.target,
                region: self@.region,
                auth_token: self@.auth_token,
            }),
            list matches Err(error) ==> error@ == ErrorView::Config("`bucket_name` required"@),
    {
        match &self.bucket_name {
            Some(name) => Ok(
                ReleaseList {
                    end_point: self.end_point,
                    bucket_name: name.clone(),
                    region: copy_text(&self.region),
                    asset_prefix: copy_text(&self.asset_prefix),
                    target: copy_text(&self.target),
                    auth_token: copy_text(&self.auth_token),
                },
            ),
            None => Err(config_error("`bucket_name` required")),
        }
    }
}

/// `ReleaseList` provides a builder api for querying an S3 bucket,
/// returning a `Vec` of available `Release`s
#[derive(Debug)]
pub struct ReleaseList {
    end_point: EndPoint,
    bucket_name: String,
    asset_prefix: Option<String>,
    target: Option<String>,
    region: Option<String>,
    auth_token: Option<String>,
}

/// What a [`ReleaseList`] is set to.
pub struct ReleaseListView {
    pub end_point: EndPoint,
    pub bucket_name: Seq<char>,
    pub asset_prefix: Option<Seq<char>>,
    pub target: Option<Seq<char>>,
    pub region: Option<Seq<char>>,
    pub auth_token: Option<Seq<char>>,
}

impl View for ReleaseList {
    type V = ReleaseListView;

    closed spec fn view(&self) -> ReleaseListView {
        ReleaseListView {
            end_point: self.end_point,
            bucket_name: self.bucket_name@,
            asset_prefix: text_of(self.asset_prefix),
            target: text_of(self.target),
            region: text_of(self.region),
            auth_token: text_of(self.auth_token),
        }
    }
}

impl Clone for ReleaseList {
    fn clone(&self) -> (copy: Self)
        ensures
            copy@ == self@,
    {
        ReleaseList {
            end_point: self.end_point,
            bucket_name: self.bucket_name.clone(),
            asset_prefix: copy_text(&self.asset_prefix),
            target: copy_text(&self.target),
            region: copy_text(&self.region),
            auth_token: copy_text(&self.auth_token),
        }
    }
}

impl ReleaseListView {
    /// The releases of the bucket that the list is about.
    pub open spec fn selected(self, releases: Seq<ReleaseView>) -> Seq<ReleaseView> {
        match self.target {
            Some(target) => for_target(releases, target),
            None => releases,
        }
    }
}

impl ReleaseList {
    /// Initialize a ReleaseListBuilder
    pub fn configure() -> (builder: ReleaseListBuilder)
        ensures
            builder@ == (ReleaseListBuilderView {
                end_point: EndPoint::S3,
                bucket_name: None,
                asset_prefix: None,
                target: None,
                region: None,
                auth_token: None,
            }),
    {
        ReleaseListBuilder {
            end_point: EndPoint::default(),
            bucket_name: None,
            asset_prefix: None,
            target: None,
            region: None,
            auth_token: None,
        }
    }

    /// The listing of the bucket, which [`ReleaseList::fetch`] takes the releases of.
    ///
    /// Fails where no region is given.
    pub fn listing(&self) -> (listing: Result<Listing, UpdateError>)
        ensures
            listing is Ok <==> self@.region is Some,
            listing matches Ok(fresh) ==> fresh@ == fresh_listing(
                self@.end_point,
                self@.bucket_name,
                self@.region->0,
                self@.asset_prefix,
                self@.auth_token,
            ),
            listing matches Err(error) ==> error@ == ErrorView::Config("`region` required"@),
    {
        fetch_releases_from_s3(
            self.end_point,
            self.bucket_name.as_str(),
            &self.region,
            &self.asset_prefix,
            &self.auth_token,
        )
    }

    /// Retrieve a list of `Release`s.
    /// If specified, filter for those containing a specified `target`
    ///
    /// `fetched` is what came of the listing of the bucket; where that failed, so does
    /// this.
    pub fn fetch(&self, fetched: Result<Vec<Release>, UpdateError>) -> (releases: Result<
        Vec<Release>,
        UpdateError,
    >)
        ensures
            fetched matches Err(error) ==> releases == Err::<Vec<Release>, UpdateError>(error),
            fetched matches Ok(all) ==> (releases matches Ok(kept) && release_views(kept@)
                == self@.selected(release_views(all@))),
            fetched matches Ok(all) ==> (self@.target is None ==> releases == Ok::<
                Vec<Release>,
                UpdateError,
            >(all)),
            fetched matches Ok(all) ==> (self@.target matches Some(target) ==> (releases matches Ok(
                kept,
            ) && forall|release: ReleaseView| #[trigger]
                release_views(kept@).contains(release) <==> release_views(all@).contains(release)
                    && exists|i: int|
                    #![trigger release.assets[i]]
                    0 <= i < release.assets.len() && exists|before: Seq<char>, behind: Seq<char>|
                        release.assets[i].name == #[trigger] (before + target + behind))),
    {
        let ghost given = fetched;
        let releases = match fetched {
            Ok(all) => match &self.target {
                Some(target) => Ok(retain_target(all, target.as_str())),
                None => Ok(all),
            },
            Err(error) => Err(error),
        };
        proof {
            if given is Ok && self@.target is Some {
                let views = release_views(given->Ok_0@);
                let target = self@.target->0;
                assert forall|release: ReleaseView| #[trigger]
                    release_views(releases->Ok_0@).contains(release) <==> views.contains(release)
                        && exists|i: int|
                        #![trigger release.assets[i]]
                        0 <= i < release.assets.len() && exists|
                            before: Seq<char>,
                            behind: Seq<char>,
                        |
                            release.assets[i].name == #[trigger] (before + target + behind) by {
                    target_selects_its_releases(self@, views, release);
                }
            }
        }
        releases
    }
}

/// With a target the list is about exactly those releases of the bucket that have an asset
/// with the target in its name, also where there is none. Without a target it is about all
/// of them.
pub proof fn target_selects_its_releases(
    list: ReleaseListView,
    releases: Seq<ReleaseView>,
    release: ReleaseView,
)
    ensures
        list.target matches Some(target) ==> (list.selected(releases).contains(release)
            <==> releases.contains(release) && exists|i: int|
            #![trigger release.assets[i]]
            0 <= i < release.assets.len() && exists|before: Seq<char>, behind: Seq<char>|
                release.assets[i].name == #[trigger] (before + target + behind)),
        list.target is None ==> list.selected(releases) == releases,
{
    if let Some(target) = list.target {
        target_decides(releases, target, release);
        target_stands_in_an_asset_name(release, target);
    }
}

/// Releases are selected one by one, in their order: what is selected of a list made up of
/// two is what is selected of the first and then of the second.
pub proof fn releases_are_selected_one_by_one(
    list: ReleaseListView,
    first: Seq<ReleaseView>,
    second: Seq<ReleaseView>,
    release: ReleaseView,
)
    ensures
        list.selected(first + second) == list.selected(first) + list.selected(second),
        list.selected(Seq::empty()) == Seq::<ReleaseView>::empty(),
        list.selected(seq![release]) == seq![release] || list.selected(seq![release]) == Seq::<
            ReleaseView,
        >::empty(),
{
    if let Some(target) = list.target {
        targets_are_chosen_one_by_one(first, second, release, target);
    }
}

} // verus!
