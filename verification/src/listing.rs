//! Listing the objects of a bucket page by page.
//!
//! A [`Listing`] says what to ask the service next, and takes the answer. Whoever holds
//! it sends the requests.

use vstd::prelude::*;

use crate::catalog::{
    added_release_is_listed, adding_keeps_catalog, captured_version_is_kept, download_url,
    has_release, is_asset_name, is_catalog, is_first_of, object_release, process_s3_object,
    reads_alike, same_release, with_object, with_release,
};
use crate::credentials::{
    auth_credentials, parse_credentials, token_gives_its_keys, Credentials, CredentialsView,
};
use crate::endpoint::{
    client_settings, download_base_url, get_client_settings, get_download_base_url, ClientSettings,
    ClientSettingsView, EndPoint,
};
use crate::errors::{config_error, list_error, ErrorView, UpdateError};
use crate::pattern::{
    is_faithful, lemma_version_number, looks_like_version, release_captures, KeyParts, KeyPattern,
};
use crate::release::{release_views, AssetView, Release, ReleaseView};
use crate::text::{copy_text, text_of};

verus! {

/// Maximum number of items to retrieve from S3 API
pub const MAX_KEYS: i32 = 100;

/// An object as the service lists it.
#[derive(Debug)]
pub struct ObjectSummary {
    pub key: Option<String>,
    pub last_modified: Option<String>,
}

/// What an [`ObjectSummary`] holds.
pub struct ObjectView {
    pub key: Option<Seq<char>>,
    pub last_modified: Option<Seq<char>>,
}

impl View for ObjectSummary {
    type V = ObjectView;

    open spec fn view(&self) -> ObjectView {
        ObjectView { key: text_of(self.key), last_modified: text_of(self.last_modified) }
    }
}

impl ObjectView {
    /// The date of the object, which is empty where the service gives none.
    pub open spec fn date(self) -> Seq<char> {
        match self.last_modified {
            Some(date) => date,
            None => Seq::empty(),
        }
    }
}

/// What the objects of `objects` hold, one by one.
pub open spec fn object_views(objects: Seq<ObjectSummary>) -> Seq<ObjectView> {
    Seq::new(objects.len(), |i: int| objects[i]@)
}

/// A page of the list of objects.
#[derive(Debug)]
pub struct ListPage {
    pub objects: Vec<ObjectSummary>,
    /// Where the list goes on, if it does.
    pub next_continuation_token: Option<String>,
}

/// A request for a page of the list of objects.
#[derive(Debug)]
pub struct ListRequest {
    pub bucket: String,
    pub max_keys: i32,
    pub prefix: Option<String>,
    pub continuation_token: Option<String>,
}

/// `names` gives each object with a key a name that its asset can have.
pub open spec fn are_asset_names(objects: Seq<ObjectView>, names: Seq<Seq<char>>) -> bool {
    &&& names.len() == objects.len()
    &&& forall|i: int|
        0 <= i < objects.len() && (#[trigger] objects[i]).key is Some ==> is_asset_name(
            objects[i].key->0,
            names[i],
        )
}

/// The list with the objects added one after the other, the asset of each under its name
/// in `names`. An object without a key is skipped.
pub open spec fn with_objects(
    releases: Seq<ReleaseView>,
    objects: Seq<ObjectView>,
    names: Seq<Seq<char>>,
    base_url: Seq<char>,
) -> Seq<ReleaseView>
    decreases objects.len(),
{
    if objects.len() == 0 {
        releases
    } else {
        let before = with_objects(releases, objects.drop_last(), names.drop_last(), base_url);
        match objects.last().key {
            Some(key) => with_object(
                before,
                key,
                objects.last().date(),
                base_url,
                names.last(),
                release_captures(key),
            ),
            None => before,
        }
    }
}

/// The key of each object is read as the pattern of release keys says.
pub open spec fn are_read_faithfully(objects: Seq<ObjectView>) -> bool {
    forall|i: int|
        0 <= i < objects.len() && (#[trigger] objects[i]).key is Some ==> is_faithful(
            objects[i].key->0,
            release_captures(objects[i].key->0),
        )
}

/// Each entry has a version of three rows of digits, and an asset.
pub open spec fn are_published(releases: Seq<ReleaseView>) -> bool {
    forall|i: int|
        0 <= i < releases.len() ==> looks_like_version((#[trigger] releases[i]).version)
            && releases[i].assets.len() > 0
}

/// An object more, read faithfully, keeps the entries published.
pub proof fn object_keeps_published(
    releases: Seq<ReleaseView>,
    key: Seq<char>,
    last_modified: Seq<char>,
    base_url: Seq<char>,
    asset_name: Seq<char>,
)
    requires
        are_published(releases),
        is_faithful(key, release_captures(key)),
    ensures
        are_published(
            with_object(
                releases,
                key,
                last_modified,
                base_url,
                asset_name,
                release_captures(key),
            ),
        ),
{
    if let Some(pair) = release_captures(key) {
        captured_version_is_kept(pair.1);
    }
}

/// A listing under way.
pub struct Listing {
    region: String,
    credentials: Option<Credentials>,
    settings: ClientSettings,
    bucket_name: String,
    asset_prefix: Option<String>,
    base_url: String,
    pattern: KeyPattern,
    releases: Vec<Release>,
    continuation_token: Option<String>,
}

/// What a [`Listing`] stands at.
pub struct ListingView {
    pub region: Seq<char>,
    pub credentials: Option<CredentialsView>,
    pub settings: ClientSettingsView,
    pub bucket_name: Seq<char>,
    pub asset_prefix: Option<Seq<char>>,
    pub base_url: Seq<char>,
    /// The releases of the pages so far.
    pub releases: Seq<ReleaseView>,
    /// Where the list goes on; nothing before the first page.
    pub continuation_token: Option<Seq<char>>,
}

/// What an optional key pair holds.
pub open spec fn credentials_view(credentials: Option<Credentials>) -> Option<CredentialsView> {
    match credentials {
        Some(pair) => Some(pair@),
        None => None,
    }
}

impl View for Listing {
    type V = ListingView;

    closed spec fn view(&self) -> ListingView {
        ListingView {
            region: self.region@,
            credentials: credentials_view(self.credentials),
            settings: self.settings@,
            bucket_name: self.bucket_name@,
            asset_prefix: text_of(self.asset_prefix),
            base_url: self.base_url@,
            releases: release_views(self.releases@),
            continuation_token: text_of(self.continuation_token),
        }
    }
}

/// The listing of a bucket before its first page.
pub open spec fn fresh_listing(
    end_point: EndPoint,
    bucket_name: Seq<char>,
    region: Seq<char>,
    asset_prefix: Option<Seq<char>>,
    auth_token: Option<Seq<char>>,
) -> ListingView {
    ListingView {
        region,
        credentials: auth_credentials(auth_token),
        settings: client_settings(end_point, region),
        bucket_name,
        asset_prefix,
        base_url: download_base_url(end_point, bucket_name, region),
        releases: Seq::empty(),
        continuation_token: None,
    }
}

/// What comes of a page.
pub enum Progress {
    /// The list goes on.
    More(Listing),
    /// The list is complete, and these are its releases.
    Complete(Vec<Release>),
}

/// Begins to obtain the list of releases from AWS S3 API, from bucket and region specified,
/// filtering assets which don't match the prefix string if provided.
///
/// This will strip the prefix from provided file names, allowing use with subdirectories:
/// an asset is named by what follows the directory of its key, as
/// `published_asset_is_its_file` shows.
///
/// Fails where no region is given.
pub fn fetch_releases_from_s3(
    end_point: EndPoint,
    bucket_name: &str,
    region: &Option<String>,
    asset_prefix: &Option<String>,
    auth_token: &Option<String>,
) -> (listing: Result<Listing, UpdateError>)
    ensures
        listing is Ok <==> region is Some,
        listing matches Ok(fresh) ==> fresh@ == fresh_listing(
            end_point,
            bucket_name@,
            text_of(*region)->0,
            text_of(*asset_prefix),
            text_of(*auth_token),
        ),
        listing matches Err(error) ==> error@ == ErrorView::Config("`region` required"@),
{
    match region {
        Some(region) => fetch_releases_with_aws_sdk(
            end_point,
            bucket_name,
            region.as_str(),
            asset_prefix,
            auth_token,
        ),
        None => Err(config_error("`region` required")),
    }
}

/// The listing of a bucket before its first page. It never fails.
pub fn fetch_releases_with_aws_sdk(
    end_point: EndPoint,
    bucket_name: &str,
    region: &str,
    asset_prefix: &Option<String>,
    auth_token: &Option<String>,
) -> (listing: Result<Listing, UpdateError>)
    ensures
        listing is Ok,
        listing matches Ok(fresh) ==> fresh@ == fresh_listing(
            end_point,
            bucket_name@,
            region@,
            text_of(*asset_prefix),
            text_of(*auth_token),
        ),
{
    let credentials = parse_credentials(auth_token);
    let settings = get_client_settings(end_point, region);
    let base_url = get_download_base_url(end_point, bucket_name, region)?;
    let pattern = match KeyPattern::new() {
        Ok(pattern) => pattern,
        Err(error) => return Err(error),
    };
    let releases: Vec<Release> = Vec::new();
    assert(release_views(releases@) =~= Seq::empty());
    Ok(
        Listing {
            region: region.to_owned(),
            credentials,
            settings,
            bucket_name: bucket_name.to_owned(),
            asset_prefix: copy_text(asset_prefix),
            base_url,
            pattern,
            releases,
            continuation_token: None,
        },
    )
}

impl Listing {
    #[verifier::type_invariant]
    closed spec fn is_sound(self) -> bool {
        &&& is_catalog(release_views(self.releases@))
        &&& are_published(release_views(self.releases@))
    }

    /// The region of the bucket.
    pub fn region(&self) -> (region: &str)
        ensures
            region@ == self@.region,
    {
        self.region.as_str()
    }

    /// The explicit credentials, if there are any.
    pub fn credentials(&self) -> (credentials: &Option<Credentials>)
        ensures
            credentials_view(*credentials) == self@.credentials,
    {
        &self.credentials
    }

    /// How the service is reached.
    pub fn settings(&self) -> (settings: &ClientSettings)
        ensures
            settings@ == self@.settings,
    {
        &self.settings
    }

    /// The request for the next page.
    pub fn next_request(&self) -> (request: ListRequest)
        ensures
            request.bucket@ == self@.bucket_name,
            request.max_keys == MAX_KEYS,
            text_of(request.prefix) == self@.asset_prefix,
            text_of(request.continuation_token) == self@.continuation_token,
    {
        ListRequest {
            bucket: self.bucket_name.clone(),
            max_keys: MAX_KEYS,
            prefix: copy_text(&self.asset_prefix),
            continuation_token: copy_text(&self.continuation_token),
        }
    }

    /// Takes the answer to the request for the next page: the page, or the service's
    /// account of why there is none.
    ///
    /// The objects of the page are added to the releases. Where the page says how the
    /// list goes on, the listing goes on there; where it does not, the list is complete.
    #[verifier::rlimit(50)]
    pub fn receive(self, answer: Result<ListPage, String>) -> (progress: Result<
        Progress,
        UpdateError,
    >)
        ensures
            answer matches Err(account) ==> (progress matches Err(error) && error@
                == ErrorView::Network("Failed to list S3 objects: "@ + account@)),
            answer matches Ok(page) ==> progress is Ok && exists|names: Seq<Seq<char>>| #[trigger]
                are_asset_names(object_views(page.objects@), names) && is_progress(
                    self@,
                    page,
                    names,
                    progress->Ok_0,
                ),
            answer matches Ok(page) ==> are_read_faithfully(object_views(page.objects@)),
            progress matches Ok(Progress::Complete(list)) ==> is_catalog(release_views(list@))
                && are_published(release_views(list@)),
            answer matches Ok(page) ==> (page.next_continuation_token matches Some(token) ==> (
            progress matches Ok(Progress::More(next)) && next@.continuation_token == Some(token@)
                && next@.bucket_name == self@.bucket_name && next@.asset_prefix
                == self@.asset_prefix && next@.region == self@.region && next@.credentials
                == self@.credentials && next@.settings == self@.settings && next@.base_url
                == self@.base_url)),
            answer matches Ok(page) ==> (page.next_continuation_token is None ==> progress matches Ok(
                Progress::Complete(_),
            )),
            progress matches Ok(Progress::Complete(list)) ==> forall|i: int, j: int|
                0 <= i < j < list@.len() ==> (#[trigger] list@[i]).name@ != (
                #[trigger] list@[j]).name@ || list@[i].version@ != list@[j].version@,
            progress matches Ok(Progress::Complete(list)) ==> forall|i: int|
                0 <= i < list@.len() ==> (#[trigger] list@[i]).name@.len() > 0
                    && list@[i].version@.len() > 0 && list@[i].assets@.len() > 0,
    {
        proof {
            use_type_invariant(&self);
        }
        let page = match answer {
            Ok(page) => page,
            Err(account) => return Err(list_error(account.as_str())),
        };
        let mut releases = self.releases;
        let ghost given = release_views(releases@);
        let ghost objects = object_views(page.objects@);
        let ghost mut names: Seq<Seq<char>> = Seq::empty();
        let mut i: usize = 0;
        while i < page.objects.len()
            invariant
                objects == object_views(page.objects@),
                i <= objects.len(),
                are_asset_names(objects.take(i as int), names),
                are_read_faithfully(objects.take(i as int)),
                is_catalog(release_views(releases@)),
                are_published(release_views(releases@)),
                release_views(releases@) == with_objects(
                    given,
                    objects.take(i as int),
                    names,
                    self.base_url@,
                ),
            decreases page.objects@.len() - i,
        {
            let object = &page.objects[i];
            let ghost seen = objects.take(i as int);
            let ghost more = objects.take(i + 1);
            let ghost before = release_views(releases@);
            let ghost named = names;
            proof {
                assert(more.drop_last() =~= seen);
                assert(more.last() == object@);
            }
            match &object.key {
                Some(key) => {
                    let empty = String::new();
                    let last_modified: &str = match &object.last_modified {
                        Some(date) => date.as_str(),
                        None => empty.as_str(),
                    };
                    let done = process_s3_object(
                        key.as_str(),
                        last_modified,
                        self.base_url.as_str(),
                        &self.pattern,
                        &mut releases,
                    );
                    proof {
                        let name = choose|name: Seq<char>| #[trigger]
                            is_asset_name(key@, name) && release_views(releases@) == with_object(
                                before,
                                key@,
                                last_modified@,
                                self.base_url@,
                                name,
                                release_captures(key@),
                            );
                        names = names.push(name);
                        object_keeps_published(
                            before,
                            key@,
                            last_modified@,
                            self.base_url@,
                            name,
                        );
                        if let Some(pair) = release_captures(key@) {
                            adding_keeps_catalog(
                                before,
                                object_release(
                                    key@,
                                    last_modified@,
                                    self.base_url@,
                                    name,
                                    pair,
                                ),
                            );
                        }
                    }
                },
                None => {
                    proof {
                        names = names.push(Seq::empty());
                    }
                },
            }
            proof {
                assert(names.drop_last() =~= named);
                assert forall|k: int| 0 <= k < more.len() && (#[trigger] more[k]).key is Some implies is_asset_name(
                    more[k].key->0,
                    names[k],
                ) by {
                    if k < i {
                        assert(seen[k] == more[k]);
                    }
                }
                assert forall|k: int| 0 <= k < more.len() && (#[trigger] more[k]).key is Some implies is_faithful(
                    more[k].key->0,
                    release_captures(more[k].key->0),
                ) by {
                    if k < i {
                        assert(seen[k] == more[k]);
                    }
                }
            }
            i = i + 1;
        }
        proof {
            assert(objects.take(i as int) =~= objects);
            let views = release_views(releases@);
            assert forall|i: int| 0 <= i < releases@.len() implies (#[trigger] releases@[i])@
                == views[i] by {}
            assert forall|i: int, j: int| 0 <= i < j < releases@.len() implies (
            #[trigger] releases@[i]).name@ != (#[trigger] releases@[j]).name@
                || releases@[i].version@ != releases@[j].version@ by {
                assert(!same_release(views[i], views[j]));
            }
            assert forall|i: int| 0 <= i < releases@.len() implies (
            #[trigger] releases@[i]).name@.len() > 0 && releases@[i].version@.len() > 0
                && releases@[i].assets@.len() > 0 by {
                assert(views[i].name.len() > 0);
            }
        }
        match page.next_continuation_token {
            Some(token) => Ok(
                Progress::More(
                    Listing {
                        region: self.region,
                        credentials: self.credentials,
                        settings: self.settings,
                        bucket_name: self.bucket_name,
                        asset_prefix: self.asset_prefix,
                        base_url: self.base_url,
                        pattern: self.pattern,
                        releases,
                        continuation_token: Some(token),
                    },
                ),
            ),
            None => Ok(Progress::Complete(releases)),
        }
    }
}

/// `progress` is what comes of `page` for a listing that stands at `listing`.
pub open spec fn is_progress(
    listing: ListingView,
    page: ListPage,
    names: Seq<Seq<char>>,
    progress: Progress,
) -> bool {
    let releases = with_objects(
        listing.releases,
        object_views(page.objects@),
        names,
        listing.base_url,
    );
    match page.next_continuation_token {
        Some(token) => progress matches Progress::More(next) && next@ == (ListingView {
            releases,
            continuation_token: Some(token@),
            ..listing
        }),
        None => progress matches Progress::Complete(list) && release_views(list@) == releases,
    }
}

/// How the objects are divided into pages does not matter: a page of `first` and then a
/// page of `second` give what one page of both gives.
pub proof fn pages_join(
    releases: Seq<ReleaseView>,
    first: Seq<ObjectView>,
    first_names: Seq<Seq<char>>,
    second: Seq<ObjectView>,
    second_names: Seq<Seq<char>>,
    base_url: Seq<char>,
)
    requires
        first_names.len() == first.len(),
        second_names.len() == second.len(),
    ensures
        with_objects(
            with_objects(releases, first, first_names, base_url),
            second,
            second_names,
            base_url,
        ) == with_objects(releases, first + second, first_names + second_names, base_url),
    decreases second.len(),
{
    if second.len() == 0 {
        assert(first + second =~= first);
        assert(first_names + second_names =~= first_names);
    } else {
        pages_join(
            releases,
            first,
            first_names,
            second.drop_last(),
            second_names.drop_last(),
            base_url,
        );
        assert((first + second).drop_last() =~= first + second.drop_last());
        assert((first_names + second_names).drop_last() =~= first_names + second_names.drop_last());
        assert((first + second).last() == second.last());
        assert((first_names + second_names).last() == second_names.last());
    }
}

/// The objects of the pages, one page after the other.
pub open spec fn joined_objects(pages: Seq<ListPage>) -> Seq<ObjectView>
    decreases pages.len(),
{
    if pages.len() == 0 {
        Seq::empty()
    } else {
        joined_objects(pages.drop_last()) + object_views(pages.last().objects@)
    }
}

/// The names of the pages, one page after the other.
pub open spec fn joined_names(names: Seq<Seq<Seq<char>>>) -> Seq<Seq<char>>
    decreases names.len(),
{
    if names.len() == 0 {
        Seq::empty()
    } else {
        joined_names(names.drop_last()) + names.last()
    }
}

/// What comes of a whole listing: the pages that were received one after the other, the
/// names that their assets got, where the listing stood after each page but the last, and
/// the list that came of the last.
pub struct Run {
    pub pages: Seq<ListPage>,
    pub names: Seq<Seq<Seq<char>>>,
    pub steps: Seq<Listing>,
    pub list: Vec<Release>,
}

impl Run {
    /// Where a listing that began at `start` stands before the page at `i`.
    pub open spec fn stands_at(self, start: ListingView, i: int) -> ListingView {
        if i == 0 {
            start
        } else {
            self.steps[i - 1]@
        }
    }

    /// Each page was received in turn by a listing that began at `start`, up to the one
    /// that completed the list.
    pub open spec fn is_of(self, start: ListingView) -> bool {
        &&& self.names.len() == self.pages.len()
        &&& self.steps.len() + 1 == self.pages.len()
        &&& forall|i: int|
            0 <= i < self.pages.len() ==> are_asset_names(
                object_views((#[trigger] self.pages[i]).objects@),
                self.names[i],
            )
        &&& forall|i: int|
            0 <= i < self.steps.len() ==> is_progress(
                self.stands_at(start, i),
                self.pages[i],
                self.names[i],
                Progress::More(#[trigger] self.steps[i]),
            )
        &&& is_progress(
            self.stands_at(start, self.steps.len() as int),
            self.pages.last(),
            self.names.last(),
            Progress::Complete(self.list),
        )
    }

    /// All objects of the pages.
    pub open spec fn objects(self) -> Seq<ObjectView> {
        joined_objects(self.pages)
    }

    /// The names of all objects.
    pub open spec fn object_names(self) -> Seq<Seq<char>> {
        joined_names(self.names)
    }

    /// Each asset has the name that `reading` finds in its key.
    pub open spec fn is_named_by(self, reading: spec_fn(Seq<char>) -> Seq<char>) -> bool {
        forall|i: int|
            0 <= i < self.objects().len() && (#[trigger] self.objects()[i]).key is Some
                ==> self.object_names()[i] == reading(self.objects()[i].key->0)
    }
}

/// Before the page at `i` a listing holds what the pages before it give as one page.
proof fn lemma_pages_so_far(start: ListingView, run: Run, i: int)
    requires
        run.is_of(start),
        0 <= i < run.pages.len(),
    ensures
        are_asset_names(joined_objects(run.pages.take(i)), joined_names(run.names.take(i))),
        run.stands_at(start, i).base_url == start.base_url,
        run.stands_at(start, i).releases == with_objects(
            start.releases,
            joined_objects(run.pages.take(i)),
            joined_names(run.names.take(i)),
            start.base_url,
        ),
    decreases i,
{
    if i > 0 {
        lemma_pages_so_far(start, run, i - 1);
        lemma_next_page(start, run, i - 1);
        assert(is_progress(
            run.stands_at(start, i - 1),
            run.pages[i - 1],
            run.names[i - 1],
            Progress::More(run.steps[i - 1]),
        ));
    }
}

/// The page at `i`, added to what the pages before it give, gives what the pages up to it
/// give as one page.
proof fn lemma_next_page(start: ListingView, run: Run, i: int)
    requires
        run.is_of(start),
        0 <= i < run.pages.len(),
        are_asset_names(joined_objects(run.pages.take(i)), joined_names(run.names.take(i))),
    ensures
        are_asset_names(joined_objects(run.pages.take(i + 1)), joined_names(run.names.take(i + 1))),
        with_objects(
            with_objects(
                start.releases,
                joined_objects(run.pages.take(i)),
                joined_names(run.names.take(i)),
                start.base_url,
            ),
            object_views(run.pages[i].objects@),
            run.names[i],
            start.base_url,
        ) == with_objects(
            start.releases,
            joined_objects(run.pages.take(i + 1)),
            joined_names(run.names.take(i + 1)),
            start.base_url,
        ),
{
    let objects = joined_objects(run.pages.take(i));
    let names = joined_names(run.names.take(i));
    let page = object_views(run.pages[i].objects@);
    assert(run.pages.take(i + 1).drop_last() =~= run.pages.take(i));
    assert(run.names.take(i + 1).drop_last() =~= run.names.take(i));
    assert(joined_objects(run.pages.take(i + 1)) == objects + page);
    assert(joined_names(run.names.take(i + 1)) == names + run.names[i]);
    assert(are_asset_names(page, run.names[i]));
    pages_join(start.releases, objects, names, page, run.names[i], start.base_url);
    assert forall|k: int|
        0 <= k < (objects + page).len() && (#[trigger] (objects + page)[k]).key is Some implies is_asset_name(
        (objects + page)[k].key->0,
        (names + run.names[i])[k],
    ) by {
        if k < objects.len() {
            assert((objects + page)[k] == objects[k]);
        } else {
            assert((objects + page)[k] == page[k - objects.len()]);
        }
    }
}

/// A whole listing gives what one page with all of its objects gives, whatever pages it
/// came in.
pub proof fn run_is_one_page(start: ListingView, run: Run)
    requires
        run.is_of(start),
    ensures
        are_asset_names(run.objects(), run.object_names()),
        release_views(run.list@) == with_objects(
            start.releases,
            run.objects(),
            run.object_names(),
            start.base_url,
        ),
{
    let last = run.steps.len() as int;
    lemma_pages_so_far(start, run, last);
    lemma_next_page(start, run, last);
    assert(run.pages.take(last + 1) =~= run.pages);
    assert(run.names.take(last + 1) =~= run.names);
}

/// The name of the object's asset does not matter, or every machine finds the same one:
/// the object makes up no release, or its key reads alike everywhere.
pub open spec fn is_named_alike(object: ObjectView) -> bool {
    object.key matches Some(key) ==> release_captures(key) is None || reads_alike(key)
}

/// The names of objects that are named alike do not matter for the list.
proof fn lemma_same_names(
    releases: Seq<ReleaseView>,
    objects: Seq<ObjectView>,
    first: Seq<Seq<char>>,
    second: Seq<Seq<char>>,
    base_url: Seq<char>,
)
    requires
        are_asset_names(objects, first),
        are_asset_names(objects, second),
        forall|i: int|
            0 <= i < objects.len() ==> is_named_alike(#[trigger] objects[i]) || first[i]
                == second[i],
    ensures
        with_objects(releases, objects, first, base_url) == with_objects(
            releases,
            objects,
            second,
            base_url,
        ),
    decreases objects.len(),
{
    if objects.len() > 0 {
        let earlier = objects.drop_last();
        assert forall|i: int| 0 <= i < earlier.len() implies #[trigger] earlier[i] == objects[i] by {}
        lemma_same_names(releases, earlier, first.drop_last(), second.drop_last(), base_url);
        let last = objects.len() - 1;
        assert(is_named_alike(objects[last]) || first[last] == second[last]);
    }
}

/// How the service divides the objects into pages does not matter: two whole listings that
/// begin alike and receive the same objects in the same order give the same releases,
/// whatever the pages are and however many of them are empty. An object in whose key
/// machines find different file names is to have the same name in both.
pub proof fn pages_do_not_matter(start: ListingView, first: Run, second: Run)
    requires
        first.is_of(start),
        second.is_of(start),
        first.objects() == second.objects(),
        forall|i: int|
            0 <= i < first.objects().len() ==> is_named_alike(#[trigger] first.objects()[i])
                || first.object_names()[i] == second.object_names()[i],
    ensures
        release_views(first.list@) == release_views(second.list@),
{
    run_is_one_page(start, first);
    run_is_one_page(start, second);
    lemma_same_names(
        start.releases,
        first.objects(),
        first.object_names(),
        second.object_names(),
        start.base_url,
    );
}

/// On one machine the pages do not matter whatever the keys are: where both listings name
/// the assets by the same reading of the keys, the same objects give the same releases.
pub proof fn pages_do_not_matter_to_one_reader(
    start: ListingView,
    first: Run,
    second: Run,
    reading: spec_fn(Seq<char>) -> Seq<char>,
)
    requires
        first.is_of(start),
        second.is_of(start),
        first.objects() == second.objects(),
        first.is_named_by(reading),
        second.is_named_by(reading),
    ensures
        release_views(first.list@) == release_views(second.list@),
{
    assert forall|i: int| 0 <= i < first.objects().len() implies is_named_alike(
        #[trigger] first.objects()[i],
    ) || first.object_names()[i] == second.object_names()[i] by {
        assert(second.objects()[i] == first.objects()[i]);
    }
    pages_do_not_matter(start, first, second);
}

/// The release that an object makes up, if its key is that of a release.
pub open spec fn release_of(
    object: ObjectView,
    name: Seq<char>,
    base_url: Seq<char>,
) -> Option<ReleaseView> {
    match object.key {
        Some(key) => match release_captures(key) {
            Some(pair) => Some(object_release(key, object.date(), base_url, name, pair)),
            None => None,
        },
        None => None,
    }
}

/// The assets of the objects that make up the release of the given name and version, the
/// last listed first.
pub open spec fn assets_of(
    objects: Seq<ObjectView>,
    names: Seq<Seq<char>>,
    base_url: Seq<char>,
    name: Seq<char>,
    version: Seq<char>,
) -> Seq<AssetView>
    decreases objects.len(),
{
    if objects.len() == 0 {
        Seq::empty()
    } else {
        let before = assets_of(objects.drop_last(), names.drop_last(), base_url, name, version);
        match release_of(objects.last(), names.last(), base_url) {
            Some(release) => if release.name == name && release.version == version {
                release.assets + before
            } else {
                before
            },
            None => before,
        }
    }
}

/// The date of the object listed last of those that make up the release of the given name
/// and version.
pub open spec fn date_of(
    objects: Seq<ObjectView>,
    names: Seq<Seq<char>>,
    base_url: Seq<char>,
    name: Seq<char>,
    version: Seq<char>,
) -> Seq<char>
    decreases objects.len(),
{
    if objects.len() == 0 {
        Seq::empty()
    } else {
        let before = date_of(objects.drop_last(), names.drop_last(), base_url, name, version);
        match release_of(objects.last(), names.last(), base_url) {
            Some(release) => if release.name == name && release.version == version {
                release.date
            } else {
                before
            },
            None => before,
        }
    }
}

/// `releases` are the releases of the objects: each entry holds the assets of the objects
/// of its name and version and the date of the last of them, and each name and version
/// that an object has is there.
pub open spec fn lists_objects(
    releases: Seq<ReleaseView>,
    objects: Seq<ObjectView>,
    names: Seq<Seq<char>>,
    base_url: Seq<char>,
) -> bool {
    &&& forall|i: int|
        0 <= i < releases.len() ==> (#[trigger] releases[i]).assets.len() > 0
            && releases[i].assets == assets_of(
            objects,
            names,
            base_url,
            releases[i].name,
            releases[i].version,
        ) && releases[i].date == date_of(
            objects,
            names,
            base_url,
            releases[i].name,
            releases[i].version,
        )
    &&& forall|name: Seq<char>, version: Seq<char>|
        name.len() > 0 && version.len() > 0 && #[trigger] assets_of(
            objects,
            names,
            base_url,
            name,
            version,
        ).len() > 0 ==> exists|i: int|
            0 <= i < releases.len() && (#[trigger] releases[i]).name == name
                && releases[i].version == version
}

/// A complete listing is exact: its entries are distinct, each holds the assets of all
/// objects of its name and version and no others, with the date of the last of them, and
/// no release that the objects make up is missing.
pub proof fn listing_is_exact(
    objects: Seq<ObjectView>,
    names: Seq<Seq<char>>,
    base_url: Seq<char>,
)
    requires
        names.len() == objects.len(),
    ensures
        is_catalog(with_objects(Seq::empty(), objects, names, base_url)),
        lists_objects(
            with_objects(Seq::empty(), objects, names, base_url),
            objects,
            names,
            base_url,
        ),
    decreases objects.len(),
{
    if objects.len() > 0 {
        let earlier = objects.drop_last();
        let earlier_names = names.drop_last();
        let before = with_objects(Seq::empty(), earlier, earlier_names, base_url);
        let after = with_objects(Seq::empty(), objects, names, base_url);
        listing_is_exact(earlier, earlier_names, base_url);
        match release_of(objects.last(), names.last(), base_url) {
            None => {
                assert(after == before);
                assert forall|name: Seq<char>, version: Seq<char>| #[trigger]
                    assets_of(objects, names, base_url, name, version) == assets_of(
                    earlier,
                    earlier_names,
                    base_url,
                    name,
                    version,
                ) && date_of(objects, names, base_url, name, version) == date_of(
                    earlier,
                    earlier_names,
                    base_url,
                    name,
                    version,
                ) by {}
            },
            Some(release) => {
                assert(after == with_release(before, release));
                adding_keeps_catalog(before, release);
                lemma_exact_step(before, after, release, objects, names, base_url);
            },
        }
    }
}

/// A listing that began with no release and ran to its end is exact, whatever pages it
/// came in.
pub proof fn run_is_exact(start: ListingView, run: Run)
    requires
        run.is_of(start),
        start.releases.len() == 0,
    ensures
        is_catalog(release_views(run.list@)),
        lists_objects(
            release_views(run.list@),
            run.objects(),
            run.object_names(),
            start.base_url,
        ),
{
    run_is_one_page(start, run);
    assert(start.releases =~= Seq::empty());
    listing_is_exact(run.objects(), run.object_names(), start.base_url);
}

/// One object more keeps a listing exact.
proof fn lemma_exact_step(
    before: Seq<ReleaseView>,
    after: Seq<ReleaseView>,
    release: ReleaseView,
    objects: Seq<ObjectView>,
    names: Seq<Seq<char>>,
    base_url: Seq<char>,
)
    requires
        objects.len() > 0,
        names.len() == objects.len(),
        is_catalog(before),
        lists_objects(before, objects.drop_last(), names.drop_last(), base_url),
        release_of(objects.last(), names.last(), base_url) == Some(release),
        after == with_release(before, release),
        is_catalog(after),
    ensures
        lists_objects(after, objects, names, base_url),
{
    let earlier = objects.drop_last();
    let earlier_names = names.drop_last();
    assert(release.assets.len() == 1);
    assert forall|i: int| 0 <= i < after.len() implies (#[trigger] after[i]).assets.len() > 0
        && after[i].assets == assets_of(
        objects,
        names,
        base_url,
        after[i].name,
        after[i].version,
    ) && after[i].date == date_of(objects, names, base_url, after[i].name, after[i].version) by {
        let held = assets_of(earlier, earlier_names, base_url, after[i].name, after[i].version);
        if i < before.len() {
            assert(before[i].assets == assets_of(
                earlier,
                earlier_names,
                base_url,
                before[i].name,
                before[i].version,
            ));
            if same_release(before[i], release) {
                if !has_release(before, release) {
                    assert(same_release(after[i], after[before.len() as int]));
                }
                let at = choose|at: int| is_first_of(before, release, at);
                if at < i {
                    assert(same_release(before[at], before[i]));
                } else if at > i {
                    assert(same_release(before[i], before[at]));
                }
                assert(after[i].assets == release.assets + before[i].assets);
            } else {
                assert(after[i] == before[i]);
            }
        } else {
            assert(after[i] == release);
            if held.len() > 0 {
                let k = choose|k: int|
                    0 <= k < before.len() && (#[trigger] before[k]).name == release.name
                        && before[k].version == release.version;
                assert(same_release(after[k], after[i]));
            }
            assert(held =~= Seq::empty());
            assert(release.assets + held =~= release.assets);
        }
    }
    assert forall|name: Seq<char>, version: Seq<char>|
        name.len() > 0 && version.len() > 0 && #[trigger] assets_of(
            objects,
            names,
            base_url,
            name,
            version,
        ).len() > 0 implies exists|i: int|
        0 <= i < after.len() && (#[trigger] after[i]).name == name && after[i].version == version by {
        if release.name == name && release.version == version {
            let at = added_release_is_listed(before, release);
            assert(after[at].name == name);
        } else {
            assert(assets_of(earlier, earlier_names, base_url, name, version).len() > 0);
            let k = choose|k: int|
                0 <= k < before.len() && (#[trigger] before[k]).name == name && before[k].version
                    == version;
            assert(after[k].name == name);
        }
    }
}

/// The asset of an object is among those of its release.
proof fn lemma_asset_collected(
    objects: Seq<ObjectView>,
    names: Seq<Seq<char>>,
    base_url: Seq<char>,
    i: int,
    release: ReleaseView,
)
    requires
        names.len() == objects.len(),
        0 <= i < objects.len(),
        release_of(objects[i], names[i], base_url) == Some(release),
    ensures
        assets_of(objects, names, base_url, release.name, release.version).contains(
            release.assets[0],
        ),
    decreases objects.len(),
{
    let earlier = objects.drop_last();
    let earlier_names = names.drop_last();
    let before = assets_of(earlier, earlier_names, base_url, release.name, release.version);
    let all = assets_of(objects, names, base_url, release.name, release.version);
    assert(release.assets.len() == 1);
    if i == objects.len() - 1 {
        assert(all[0] == release.assets[0]);
    } else {
        lemma_asset_collected(earlier, earlier_names, base_url, i, release);
        let k = choose|k: int| 0 <= k < before.len() && before[k] == release.assets[0];
        match release_of(objects.last(), names.last(), base_url) {
            Some(last) if last.name == release.name && last.version == release.version => {
                assert(last.assets.len() == 1);
                assert(all[k + 1] == release.assets[0]);
            },
            _ => {
                assert(all[k] == release.assets[0]);
            },
        }
    }
}

/// What is published is found: in a complete listing an object under a published key has
/// its release, under the name and the version of the key, with the object among the
/// assets.
pub proof fn published_object_is_found(
    objects: Seq<ObjectView>,
    names: Seq<Seq<char>>,
    base_url: Seq<char>,
    i: int,
    p: KeyParts,
) -> (at: int)
    requires
        names.len() == objects.len(),
        are_read_faithfully(objects),
        0 <= i < objects.len(),
        objects[i].key == Some(p.key()),
        p.is_published(),
    ensures
        ({
            let releases = with_objects(Seq::empty(), objects, names, base_url);
            &&& 0 <= at < releases.len()
            &&& releases[at].name == p.name
            &&& releases[at].version == p.version
            &&& releases[at].assets.contains(
                AssetView { name: names[i], download_url: download_url(base_url, p.key()) },
            )
        }),
{
    let releases = with_objects(Seq::empty(), objects, names, base_url);
    lemma_version_number(p.version);
    captured_version_is_kept(p.version);
    let release = object_release(
        p.key(),
        objects[i].date(),
        base_url,
        names[i],
        (p.name, p.version),
    );
    assert(is_faithful(objects[i].key->0, release_captures(objects[i].key->0)));
    assert(release_of(objects[i], names[i], base_url) == Some(release));
    lemma_asset_collected(objects, names, base_url, i, release);
    listing_is_exact(objects, names, base_url);
    assert(assets_of(objects, names, base_url, p.name, p.version).len() > 0);
    choose|at: int|
        0 <= at < releases.len() && (#[trigger] releases[at]).name == p.name && releases[at].version
            == p.version
}

/// A listing goes on where the page says, whatever the page holds: the next request carries
/// the token of the page, for the same bucket and prefix, and the service is reached as
/// before. Where the page says nothing, the list is complete.
pub proof fn next_request_carries_the_token(
    listing: ListingView,
    page: ListPage,
    names: Seq<Seq<char>>,
    progress: Progress,
)
    requires
        is_progress(listing, page, names, progress),
    ensures
        page.next_continuation_token matches Some(token) ==> (progress matches Progress::More(next)
            && next@.continuation_token == Some(token@) && next@.bucket_name == listing.bucket_name
            && next@.asset_prefix == listing.asset_prefix && next@.region == listing.region
            && next@.credentials == listing.credentials && next@.settings == listing.settings
            && next@.base_url == listing.base_url),
        page.next_continuation_token is None ==> progress is Complete,
{
}

/// In a whole listing the request for each page but the first carries the token of the page
/// before it, and all are for one bucket and one prefix. The last page is the first that
/// says nothing on how to go on.
#[verifier::rlimit(50)]
pub proof fn requests_follow_the_pages(start: ListingView, run: Run, i: int)
    requires
        run.is_of(start),
        0 <= i < run.pages.len(),
    ensures
        run.stands_at(start, 0) == start,
        i > 0 ==> (run.pages[i - 1].next_continuation_token matches Some(token)
            && run.stands_at(start, i).continuation_token == Some(token@)),
        i > 0 ==> run.stands_at(start, i) == run.steps[i - 1]@,
        run.stands_at(start, i).bucket_name == start.bucket_name,
        run.stands_at(start, i).asset_prefix == start.asset_prefix,
        run.stands_at(start, i).region == start.region,
        run.stands_at(start, i).credentials == start.credentials,
        run.stands_at(start, i).settings == start.settings,
        run.pages.last().next_continuation_token is None,
    decreases i,
{
    assert(is_progress(
        run.stands_at(start, run.steps.len() as int),
        run.pages.last(),
        run.names.last(),
        Progress::Complete(run.list),
    ));
    if i > 0 {
        requests_follow_the_pages(start, run, i - 1);
        assert(is_progress(
            run.stands_at(start, i - 1),
            run.pages[i - 1],
            run.names[i - 1],
            Progress::More(run.steps[i - 1]),
        ));
    }
}

/// A page adds its objects to the releases of the pages before it, whether the list goes on
/// or not.
pub proof fn page_adds_its_objects(
    listing: ListingView,
    page: ListPage,
    names: Seq<Seq<char>>,
    progress: Progress,
)
    requires
        is_progress(listing, page, names, progress),
    ensures
        progress matches Progress::More(next) ==> next@.releases == with_objects(
            listing.releases,
            object_views(page.objects@),
            names,
            listing.base_url,
        ),
        progress matches Progress::Complete(list) ==> release_views(list@) == with_objects(
            listing.releases,
            object_views(page.objects@),
            names,
            listing.base_url,
        ),
{
}

/// A page without objects adds nothing. An object adds the release of the name and the
/// version that its key tells, with its date, or none where the service gives no date, and
/// one asset at its address. An object without a key, and one whose key tells no release,
/// adds nothing.
pub proof fn one_object_adds_one_release(
    releases: Seq<ReleaseView>,
    object: ObjectView,
    name: Seq<char>,
    base_url: Seq<char>,
)
    ensures
        with_objects(releases, Seq::empty(), Seq::empty(), base_url) == releases,
        object.key is None ==> with_objects(releases, seq![object], seq![name], base_url)
            == releases,
        object.key matches Some(key) ==> {
            &&& release_captures(key) is None ==> with_objects(
                releases,
                seq![object],
                seq![name],
                base_url,
            ) == releases
            &&& release_captures(key) matches Some(captured) ==> with_objects(
                releases,
                seq![object],
                seq![name],
                base_url,
            ) == with_release(
                releases,
                object_release(
                    key,
                    match object.last_modified {
                        Some(date) => date,
                        None => Seq::empty(),
                    },
                    base_url,
                    name,
                    captured,
                ),
            )
        },
{
    let one = seq![object];
    let named = seq![name];
    assert(one.drop_last() =~= Seq::empty());
    assert(named.drop_last() =~= Seq::empty());
    assert(one.last() == object && named.last() == name);
    assert(with_objects(releases, one.drop_last(), named.drop_last(), base_url) == releases);
}

/// Objects show their keys and dates, in their order.
pub proof fn objects_show_what_they_hold(objects: Seq<ObjectSummary>, i: int)
    requires
        0 <= i < objects.len(),
    ensures
        object_views(objects).len() == objects.len(),
        objects[i].key matches Some(key) ==> object_views(objects)[i].key == Some(key@),
        objects[i].key is None ==> object_views(objects)[i].key is None,
        objects[i].last_modified matches Some(date) ==> object_views(objects)[i].last_modified
            == Some(date@),
        objects[i].last_modified is None ==> object_views(objects)[i].last_modified is None,
{
}

/// Each object with a key has a name that fits its key.
pub proof fn objects_are_named_by_their_keys(
    objects: Seq<ObjectView>,
    names: Seq<Seq<char>>,
    i: int,
)
    requires
        are_asset_names(objects, names),
        0 <= i < objects.len(),
    ensures
        names.len() == objects.len(),
        objects[i].key matches Some(key) ==> is_asset_name(key, names[i]),
{
}

/// A listing begins with no release and no token, for the bucket, the region and the prefix
/// that it is told, with the credentials that the token writes, and reaches the service
/// and addresses the objects as the end point says.
pub proof fn listing_begins_as_told(
    end_point: EndPoint,
    bucket_name: Seq<char>,
    region: Seq<char>,
    asset_prefix: Option<Seq<char>>,
    access_key: Seq<char>,
    secret_key: Seq<char>,
)
    requires
        !access_key.contains(':'),
        !secret_key.contains(':'),
    ensures
        ({
            let plain = fresh_listing(end_point, bucket_name, region, asset_prefix, None);
            let signed = fresh_listing(
                end_point,
                bucket_name,
                region,
                asset_prefix,
                Some(access_key + ":"@ + secret_key),
            );
            &&& plain.region == region
            &&& plain.bucket_name == bucket_name
            &&& plain.asset_prefix == asset_prefix
            &&& plain.releases.len() == 0
            &&& plain.continuation_token is None
            &&& plain.credentials is None
            &&& plain.settings == client_settings(end_point, region)
            &&& plain.base_url == download_base_url(end_point, bucket_name, region)
            &&& signed.credentials matches Some(pair) && pair.access_key == access_key
                && pair.secret_key == secret_key
            &&& signed == (ListingView { credentials: signed.credentials, ..plain })
        }),
{
    token_gives_its_keys(access_key, secret_key, Seq::empty());
    assert(fresh_listing(
        end_point,
        bucket_name,
        region,
        asset_prefix,
        None,
    ).releases =~= fresh_listing(
        end_point,
        bucket_name,
        region,
        asset_prefix,
        Some(access_key + ":"@ + secret_key),
    ).releases);
}

/// A listing takes from its token what is read from it, whatever the token is.
pub proof fn listing_reads_its_token(
    end_point: EndPoint,
    bucket_name: Seq<char>,
    region: Seq<char>,
    asset_prefix: Option<Seq<char>>,
    auth_token: Option<Seq<char>>,
)
    ensures
        fresh_listing(end_point, bucket_name, region, asset_prefix, auth_token) == (ListingView {
            credentials: auth_credentials(auth_token),
            ..fresh_listing(end_point, bucket_name, region, asset_prefix, None)
        }),
{
}

/// Optional credentials show the keys that they hold.
pub proof fn optional_credentials_show_their_keys(credentials: Option<Credentials>)
    ensures
        credentials matches Some(pair) ==> (credentials_view(credentials) matches Some(shown)
            && shown.access_key == pair.access_key@ && shown.secret_key == pair.secret_key@),
        credentials is None ==> credentials_view(credentials) is None,
{
}

} // verus!
