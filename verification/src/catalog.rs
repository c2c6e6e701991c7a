//! The list of releases that the objects of a bucket make up.

use vstd::prelude::*;

use crate::endpoint::{download_base_url, EndPoint};
use crate::errors::UpdateError;
use crate::pattern::{
    is_faithful, lacks, lemma_file_chars, lemma_looks_like_version, lemma_version_number,
    looks_like_version, pair_texts, release_captures, KeyParts, KeyPattern,
};
use crate::release::{release_views, AssetView, Release, ReleaseAsset, ReleaseView};
use crate::text::{
    end_is_trimmed, found_text_stands_between, has_text, occurs_at, start_is_trimmed, text_of, trim_end, trim_start,
    trimmed_end, trimmed_start,
};

verus! {

/// The two are the same release: one name and one version.
pub open spec fn same_release(a: ReleaseView, b: ReleaseView) -> bool {
    a.name == b.name && a.version == b.version
}

/// `at` is the first position of `release` in the list.
pub open spec fn is_first_of(releases: Seq<ReleaseView>, release: ReleaseView, at: int) -> bool {
    &&& 0 <= at < releases.len()
    &&& same_release(releases[at], release)
    &&& forall|k: int| 0 <= k < at ==> !same_release(#[trigger] releases[k], release)
}

/// `release` stands in the list.
pub open spec fn has_release(releases: Seq<ReleaseView>, release: ReleaseView) -> bool {
    exists|at: int| is_first_of(releases, release, at)
}

/// The list with `release` added.
///
/// A release without name or version is not added. One that stands in the list already
/// takes the place of that entry, and its assets come before those of the entry.
/// Another is put at the end.
pub open spec fn with_release(
    releases: Seq<ReleaseView>,
    release: ReleaseView,
) -> Seq<ReleaseView> {
    if release.name.len() == 0 || release.version.len() == 0 {
        releases
    } else if has_release(releases, release) {
        let at = choose|at: int| is_first_of(releases, release, at);
        releases.update(
            at,
            ReleaseView { assets: release.assets + releases[at].assets, ..release },
        )
    } else {
        releases.push(release)
    }
}

/// Add a release to the list if it doesn't exist yet, or merge its asset/s
/// details into the release item already existing in the list.
pub fn add_to_releases_list(releases: &mut Vec<Release>, rel: Release)
    ensures
        release_views(final(releases)@) == with_release(release_views(old(releases)@), rel@),
{
    let mut rel = rel;
    let ghost added = rel@;
    let ghost views = release_views(releases@);
    if !rel.version.as_str().is_empty() && !rel.name.as_str().is_empty() {
        let mut index: usize = 0;
        while index < releases.len() && !(releases[index].name == rel.name
            && releases[index].version == rel.version)
            invariant
                index <= releases@.len(),
                views == release_views(releases@),
                rel@ == added,
                forall|k: int| 0 <= k < index ==> !same_release(#[trigger] views[k], added),
            decreases releases@.len() - index,
        {
            assert(views[index as int] == releases@[index as int]@);
            index = index + 1;
        }
        if index < releases.len() {
            assert(views[index as int] == releases@[index as int]@);
            assert(is_first_of(views, added, index as int));
            rel.assets.append(&mut releases[index].assets);
            assert(rel@.assets =~= added.assets + views[index as int].assets);
            releases.push(rel);
            releases.swap_remove(index);
            proof {
                let at = choose|at: int| is_first_of(views, added, at);
                assert(at == index);
                assert(release_views(releases@) =~= with_release(views, added));
            }
        } else {
            releases.push(rel);
            assert(release_views(releases@) =~= views.push(added));
        }
    }
}

/// What stands behind the last slash of `key`, or all of it where there is none.
pub open spec fn last_segment(key: Seq<char>) -> Seq<char>
    decreases key.len(),
{
    if key.len() == 0 || key.last() == '/' {
        Seq::empty()
    } else {
        last_segment(key.drop_last()).push(key.last())
    }
}

/// `key` as a path without what adds nothing at its end: slashes, and segments `.` that
/// stand behind another.
pub open spec fn path_body(key: Seq<char>) -> Seq<char>
    decreases key.len(),
{
    if key.len() > 0 && key.last() == '/' {
        path_body(key.drop_last())
    } else if key.len() > 1 && key.last() == '.' && key[key.len() - 2] == '/' {
        path_body(key.drop_last())
    } else {
        key
    }
}

/// `c` separates the segments of a path on some machine.
pub open spec fn is_separator(c: char) -> bool {
    c == '/' || c == '\\'
}

/// Every machine finds the same file name in `key`.
///
/// It does not begin with two separators, as a network path does. Its last segment holds
/// no backslash, which separates segments on some machines. It is not a single segment
/// with a colon in second place, which can be a drive.
pub open spec fn reads_alike(key: Seq<char>) -> bool {
    let body = path_body(key);
    &&& !(key.len() > 1 && is_separator(key[0]) && is_separator(key[1]))
    &&& lacks(last_segment(body), '\\')
    &&& !(lacks(body, '/') && body.len() > 1 && body[1] == ':')
}

/// The file name of `key` as a path: its last segment, without regard to slashes and
/// segments `.` at the end. A path that ends in `..`, and one of nothing but slashes and
/// segments `.`, has none.
pub open spec fn path_file_name(key: Seq<char>) -> Option<Seq<char>> {
    let last = last_segment(path_body(key));
    if last.len() == 0 || last == "."@ || last == ".."@ {
        None
    } else {
        Some(last)
    }
}

/// `name` is a name that the asset of `key` can have: its file name, or all of it where
/// it has none. Of a key in which machines find different ones it is some part, and not
/// empty.
pub open spec fn is_asset_name(key: Seq<char>, name: Seq<char>) -> bool {
    if reads_alike(key) {
        name == match path_file_name(key) {
            Some(file_name) => file_name,
            None => key,
        }
    } else {
        name.len() > 0 && has_text(key, name)
    }
}

/// `std::path::Path::file_name`, where it is text.
///
/// It is the final component of the path, and there is none where the path ends in `..`
/// or has no components but a root or a `.` at its beginning. Repeated and final slashes
/// and other segments `.` are no components. How a path begins, and whether a backslash
/// divides it, differs between machines, so only a key that reads alike on all of them
/// fixes the name; for the others it is some part of the key, or there is none.
#[verifier::external_body]
fn file_name(key: &str) -> (name: Option<String>)
    ensures
        reads_alike(key@) ==> text_of(name) == path_file_name(key@),
        name matches Some(text) ==> text@.len() > 0 && has_text(key@, text@),
{
    std::path::Path::new(key).file_name()?.to_str().map(|text| text.to_string())
}

/// The name of the asset that `key` holds: its file name, or all of it where it has none.
pub fn asset_name(key: &str) -> (name: String)
    ensures
        is_asset_name(key@, name@),
{
    match file_name(key) {
        Some(name) => name,
        None => {
            proof {
                assert(key@.subrange(0, 0 + key@.len() as int) =~= key@);
                assert(occurs_at(key@, key@, 0));
                assert(key@.len() == 0 ==> reads_alike(key@));
            }
            key.to_owned()
        },
    }
}

/// The URL of the object `key` below `base_url`.
pub open spec fn download_url(base_url: Seq<char>, key: Seq<char>) -> Seq<char> {
    "https://"@ + trimmed_end(base_url, "/"@) + "/"@ + key
}

/// The release that one object makes up.
pub open spec fn object_release(
    key: Seq<char>,
    last_modified: Seq<char>,
    base_url: Seq<char>,
    asset_name: Seq<char>,
    captured: (Seq<char>, Seq<char>),
) -> ReleaseView {
    ReleaseView {
        name: captured.0,
        version: trimmed_start(captured.1, 'v'),
        date: last_modified,
        assets: seq![AssetView { name: asset_name, download_url: download_url(base_url, key) }],
    }
}

/// The list with an object added. One whose key captures nothing adds nothing.
pub open spec fn with_object(
    releases: Seq<ReleaseView>,
    key: Seq<char>,
    last_modified: Seq<char>,
    base_url: Seq<char>,
    asset_name: Seq<char>,
    captured: Option<(Seq<char>, Seq<char>)>,
) -> Seq<ReleaseView> {
    match captured {
        Some(pair) => with_release(
            releases,
            object_release(key, last_modified, base_url, asset_name, pair),
        ),
        None => releases,
    }
}

/// Adds to the list the object with the given key, of which the asset's name and the
/// release's name and version are known.
pub fn record_object(
    key: &str,
    last_modified: &str,
    download_base_url: &str,
    asset_name: String,
    captured: Option<(String, String)>,
    releases: &mut Vec<Release>,
)
    ensures
        release_views(final(releases)@) == with_object(
            release_views(old(releases)@),
            key@,
            last_modified@,
            download_base_url@,
            asset_name@,
            pair_texts(captured),
        ),
{
    if let Some((name, version)) = captured {
        let base = trim_end(download_base_url, "/");
        let url = "https://".to_owned().concat(base).concat("/").concat(key);
        let mut assets: Vec<ReleaseAsset> = Vec::new();
        assets.push(ReleaseAsset { name: asset_name, download_url: url });
        let release = Release {
            name,
            version: trim_start(version.as_str(), 'v').to_owned(),
            date: last_modified.to_owned(),
            assets,
        };
        assert(release@ =~= object_release(
            key@,
            last_modified@,
            download_base_url@,
            asset_name@,
            (name@, version@),
        ));
        add_to_releases_list(releases, release);
    }
}

/// Adds to the list the object with the given key, if its key is that of a release. It
/// never fails.
pub fn process_s3_object(
    key: &str,
    last_modified: &str,
    download_base_url: &str,
    regex: &KeyPattern,
    releases: &mut Vec<Release>,
) -> (done: Result<(), UpdateError>)
    ensures
        done is Ok,
        is_faithful(key@, release_captures(key@)),
        exists|name: Seq<char>| #[trigger]
            is_asset_name(key@, name) && release_views(final(releases)@) == with_object(
                release_views(old(releases)@),
                key@,
                last_modified@,
                download_base_url@,
                name,
                release_captures(key@),
            ),
{
    let exe_name = asset_name(key);
    let captured = regex.read_release(key);
    record_object(key, last_modified, download_base_url, exe_name, captured, releases);
    Ok(())
}

/// A list of releases as it grows: each entry has a name and a version, and no two have
/// the same.
pub open spec fn is_catalog(releases: Seq<ReleaseView>) -> bool {
    &&& forall|i: int|
        0 <= i < releases.len() ==> (#[trigger] releases[i]).name.len() > 0
            && releases[i].version.len() > 0
    &&& forall|i: int, j: int|
        0 <= i < j < releases.len() ==> !same_release(#[trigger] releases[i], #[trigger] releases[j])
}

/// A release that stands in the list somewhere has a first position there.
proof fn lemma_first(releases: Seq<ReleaseView>, release: ReleaseView, at: int)
    requires
        0 <= at < releases.len(),
        same_release(releases[at], release),
    ensures
        has_release(releases, release),
    decreases at,
{
    if forall|k: int| 0 <= k < at ==> !same_release(#[trigger] releases[k], release) {
        assert(is_first_of(releases, release, at));
    } else {
        let k = choose|k: int| 0 <= k < at && same_release(#[trigger] releases[k], release);
        lemma_first(releases, release, k);
    }
}

/// Adding a release never makes two entries of one name and version, nor one without
/// name or version.
pub proof fn adding_keeps_catalog(releases: Seq<ReleaseView>, release: ReleaseView)
    requires
        is_catalog(releases),
    ensures
        is_catalog(with_release(releases, release)),
{
    if release.name.len() > 0 && release.version.len() > 0 && !has_release(releases, release) {
        assert forall|i: int| 0 <= i < releases.len() implies !same_release(
            #[trigger] releases[i],
            release,
        ) by {
            if same_release(releases[i], release) {
                lemma_first(releases, release, i);
            }
        }
    }
}

/// Adding a release loses nothing: each entry keeps its place, its name and its version,
/// and its assets stay, in their order, at the end of those that the entry has then.
pub proof fn adding_loses_nothing(releases: Seq<ReleaseView>, release: ReleaseView, i: int)
    requires
        0 <= i < releases.len(),
    ensures
        i < with_release(releases, release).len(),
        same_release(with_release(releases, release)[i], releases[i]),
        with_release(releases, release)[i].assets == releases[i].assets
            || with_release(releases, release)[i].assets == release.assets + releases[i].assets,
{
}

/// A release with name and version stands in the list once it is added, with its assets
/// before all others, and the list has grown by one entry at most.
pub proof fn added_release_is_listed(releases: Seq<ReleaseView>, release: ReleaseView) -> (at: int)
    requires
        release.name.len() > 0,
        release.version.len() > 0,
    ensures
        is_first_of(with_release(releases, release), release, at),
        with_release(releases, release)[at].date == release.date,
        with_release(releases, release)[at].assets.len() >= release.assets.len(),
        with_release(releases, release)[at].assets.take(release.assets.len() as int)
            == release.assets,
        with_release(releases, release).len() <= releases.len() + 1,
{
    let after = with_release(releases, release);
    if has_release(releases, release) {
        let at = choose|at: int| is_first_of(releases, release, at);
        assert(is_first_of(after, release, at));
        assert(after[at].assets.take(release.assets.len() as int) =~= release.assets);
        at
    } else {
        assert forall|i: int| 0 <= i < releases.len() implies !same_release(
            #[trigger] releases[i],
            release,
        ) by {
            if same_release(releases[i], release) {
                lemma_first(releases, release, i);
            }
        }
        assert(is_first_of(after, release, releases.len() as int));
        assert(release.assets.take(release.assets.len() as int) =~= release.assets);
        releases.len() as int
    }
}

/// A captured version is taken over as it is: there is no `v` before it to take away.
pub proof fn captured_version_is_kept(version: Seq<char>)
    requires
        looks_like_version(version),
    ensures
        trimmed_start(version, 'v') == version,
{
    lemma_looks_like_version(version);
}

/// An object is downloaded over `https` from the host of its bucket: nothing of the host is
/// trimmed away, and the key follows it.
pub proof fn object_is_at_its_host(
    end_point: EndPoint,
    bucket_name: Seq<char>,
    region: Seq<char>,
    key: Seq<char>,
)
    ensures
        download_url(download_base_url(end_point, bucket_name, region), key) == "https://"@
            + download_base_url(end_point, bucket_name, region) + "/"@ + key,
        end_point is S3 ==> download_url(download_base_url(end_point, bucket_name, region), key)
            == "https://"@ + (bucket_name + ".s3."@ + region + ".amazonaws.com"@) + "/"@ + key,
{
    reveal_strlit("/");
    reveal_strlit(".amazonaws.com");
    reveal_strlit(".storage.googleapis.com");
    reveal_strlit(".digitaloceanspaces.com");
    let base_url = download_base_url(end_point, bucket_name, region);
    assert(base_url.last() == 'm');
    if occurs_at(base_url, "/"@, base_url.len() - 1) {
        assert("/"@[0] == base_url.subrange(base_url.len() - 1, base_url.len() as int)[0]);
    }
}

/// What follows the last slash of a directory is the last segment.
proof fn lemma_last_segment(directory: Seq<char>, file: Seq<char>)
    requires
        directory.len() > 0 ==> directory.last() == '/',
        lacks(file, '/'),
    ensures
        last_segment(directory + file) == file,
    decreases file.len(),
{
    let key = directory + file;
    if file.len() == 0 {
        assert(key =~= directory);
    } else {
        assert(file.last() != '/');
        assert(key.last() == file.last());
        assert(key.drop_last() =~= directory + file.drop_last());
        lemma_last_segment(directory, file.drop_last());
        assert(file.drop_last().push(file.last()) =~= file);
    }
}

/// The asset of a published key is named by what follows the directory, wherever the key
/// reads alike.
pub proof fn published_asset_is_its_file(p: KeyParts, name: Seq<char>)
    requires
        p.is_published(),
        reads_alike(p.key()),
        is_asset_name(p.key(), name),
    ensures
        name == p.file(),
{
    let key = p.key();
    let file = p.file();
    lemma_file_chars(p);
    reveal_strlit(".");
    reveal_strlit("..");
    assert(key.last() == file.last());
    assert(key[key.len() - 2] == file[file.len() - 2]);
    assert(path_body(key) == key);
    lemma_last_segment(p.directory, file);
}

/// An object under a published key is listed: the list has an entry of its name and
/// version, with the date of the object and its asset in front.
pub proof fn published_object_is_listed(
    releases: Seq<ReleaseView>,
    p: KeyParts,
    last_modified: Seq<char>,
    base_url: Seq<char>,
    asset_name: Seq<char>,
) -> (at: int)
    requires
        p.is_published(),
        is_faithful(p.key(), release_captures(p.key())),
    ensures
        ({
            let after = with_object(
                releases,
                p.key(),
                last_modified,
                base_url,
                asset_name,
                release_captures(p.key()),
            );
            &&& 0 <= at < after.len()
            &&& after[at].name == p.name
            &&& after[at].version == p.version
            &&& after[at].date == last_modified
            &&& after[at].assets.len() > 0
            &&& after[at].assets[0] == AssetView {
                name: asset_name,
                download_url: download_url(base_url, p.key()),
            }
        }),
{
    lemma_version_number(p.version);
    captured_version_is_kept(p.version);
    let release = object_release(
        p.key(),
        last_modified,
        base_url,
        asset_name,
        (p.name, p.version),
    );
    let at = added_release_is_listed(releases, release);
    assert(with_release(releases, release)[at].assets.take(1)[0] == release.assets[0]);
    at
}

/// A release without name or version changes nothing. One whose name and version no entry
/// has is put at the end. Another is merged into the first entry that has both: the entry
/// gets its date, and its assets in front of those that it had. All other entries stay.
pub proof fn release_is_put_or_merged(releases: Seq<ReleaseView>, release: ReleaseView, at: int)
    ensures
        release.name.len() == 0 || release.version.len() == 0 ==> with_release(releases, release)
            == releases,
        release.name.len() > 0 && release.version.len() > 0 && (forall|k: int|
            0 <= k < releases.len() ==> (#[trigger] releases[k]).name != release.name
                || releases[k].version != release.version) ==> with_release(releases, release)
            == releases.push(release),
        release.name.len() > 0 && release.version.len() > 0 && 0 <= at < releases.len()
            && releases[at].name == release.name && releases[at].version == release.version && (
        forall|k: int|
            0 <= k < at ==> (#[trigger] releases[k]).name != release.name || releases[k].version
                != release.version) ==> {
            let after = with_release(releases, release);
            &&& after.len() == releases.len()
            &&& forall|k: int|
                0 <= k < releases.len() && k != at ==> #[trigger] after[k] == releases[k]
            &&& after[at].name == release.name
            &&& after[at].version == release.version
            &&& after[at].date == release.date
            &&& after[at].assets == release.assets + releases[at].assets
        },
{
    if release.name.len() > 0 && release.version.len() > 0 {
        if has_release(releases, release) {
            let first = choose|first: int| is_first_of(releases, release, first);
            assert(releases[first].name == release.name);
            if 0 <= at < releases.len() && releases[at].name == release.name && releases[at].version
                == release.version {
                assert(same_release(releases[at], release));
                if first < at {
                    assert(releases[first].version == release.version);
                } else if at < first {
                    assert(!same_release(releases[at], release));
                }
            }
        } else if 0 <= at < releases.len() && releases[at].name == release.name
            && releases[at].version == release.version {
            lemma_first(releases, release, at);
        }
    }
}

/// An object makes up a release of the captured name and version, but for copies of `v`
/// that the version begins with. It has the date of the object and one asset: the given
/// name, and the address of the object.
pub proof fn object_tells_its_release(
    key: Seq<char>,
    last_modified: Seq<char>,
    base_url: Seq<char>,
    asset_name: Seq<char>,
    name: Seq<char>,
    version: Seq<char>,
)
    ensures
        ({
            let release = object_release(key, last_modified, base_url, asset_name, (name, version));
            let marks = version.len() - release.version.len();
            &&& release.name == name
            &&& 0 <= marks && release.version == version.skip(marks)
            &&& forall|k: int| 0 <= k < marks ==> #[trigger] version[k] == 'v'
            &&& release.version.len() > 0 ==> release.version[0] != 'v'
            &&& release.date == last_modified
            &&& release.assets.len() == 1
            &&& release.assets[0].name == asset_name
            &&& release.assets[0].download_url == download_url(base_url, key)
        }),
{
    start_is_trimmed(version, 'v');
}

/// An object is downloaded over `https`, from its key behind the host and one slash,
/// whether the host ends with slashes or not.
pub proof fn object_is_downloaded_from_its_key(host: Seq<char>, key: Seq<char>)
    ensures
        host.len() == 0 || host.last() != '/' ==> download_url(host, key) == "https://"@ + host
            + "/"@ + key,
        download_url(host + "/"@, key) == download_url(host, key),
{
    reveal_strlit("/");
    end_is_trimmed(host, "/"@);
    if host.len() > 0 && host.last() != '/' {
        assert(host.skip(host.len() - 1)[0] == host.last());
    }
}

/// An object adds the release that it makes up, and one whose key is of no release adds
/// nothing.
pub proof fn object_adds_what_its_key_tells(
    releases: Seq<ReleaseView>,
    key: Seq<char>,
    last_modified: Seq<char>,
    base_url: Seq<char>,
    asset_name: Seq<char>,
    captured: Option<(Seq<char>, Seq<char>)>,
)
    ensures
        captured is None ==> with_object(
            releases,
            key,
            last_modified,
            base_url,
            asset_name,
            captured,
        ) == releases,
        captured matches Some(pair) ==> with_object(
            releases,
            key,
            last_modified,
            base_url,
            asset_name,
            captured,
        ) == with_release(
            releases,
            object_release(key, last_modified, base_url, asset_name, pair),
        ),
{
}

/// What adds nothing at the end of a path is taken away down to the file.
proof fn lemma_path_body(directory: Seq<char>, file: Seq<char>, tail: Seq<char>)
    requires
        directory.len() > 0 ==> directory.last() == '/',
        file.len() > 0,
        forall|k: int| 0 <= k < file.len() ==> #[trigger] file[k] != '/',
        directory.len() > 0 ==> file != "."@,
        tail.len() > 0 ==> tail[0] == '/',
        forall|k: int|
            0 <= k < tail.len() ==> #[trigger] tail[k] == '/' || (tail[k] == '.' && k > 0 && tail[k
                - 1] == '/'),
    ensures
        path_body(directory + file + tail) == directory + file,
    decreases tail.len(),
{
    let key = directory + file + tail;
    if tail.len() == 0 {
        reveal_strlit(".");
        assert(key =~= directory + file);
        assert(key.last() == file.last());
        if key.len() > 1 && key.last() == '.' && key[key.len() - 2] == '/' {
            if file.len() > 1 {
                assert(key[key.len() - 2] == file[file.len() - 2]);
            } else {
                assert(file =~= "."@);
            }
        }
    } else {
        let shorter = tail.drop_last();
        assert(key.last() == tail.last());
        assert(tail[tail.len() - 1] == '/' || tail.len() > 1);
        if tail.last() == '.' {
            assert(key[key.len() - 2] == tail[tail.len() - 2]);
        }
        assert(key.drop_last() =~= directory + file + shorter);
        lemma_path_body(directory, file, shorter);
    }
}

/// The asset of an object is named by the file of its key: what stands behind the last
/// slash, without regard to slashes and segments `.` at the end. This holds of every key
/// that begins neither with two separators nor, without a directory, with what can be a
/// drive, and that has no backslash in the file.
pub proof fn asset_is_named_by_its_file(
    directory: Seq<char>,
    file: Seq<char>,
    tail: Seq<char>,
    name: Seq<char>,
)
    requires
        directory.len() > 0 ==> directory.last() == '/',
        !(directory.len() > 1 && (directory[0] == '/' || directory[0] == '\\') && (directory[1]
            == '/' || directory[1] == '\\')),
        file.len() > 0 && file != "."@ && file != ".."@,
        forall|k: int| 0 <= k < file.len() ==> #[trigger] file[k] != '/' && file[k] != '\\',
        directory.len() == 0 && file.len() > 1 ==> file[1] != ':',
        tail.len() > 0 ==> tail[0] == '/',
        forall|k: int|
            0 <= k < tail.len() ==> #[trigger] tail[k] == '/' || (tail[k] == '.' && k > 0 && tail[k
                - 1] == '/'),
        is_asset_name(directory + file + tail, name),
    ensures
        name == file,
{
    let key = directory + file + tail;
    let body = directory + file;
    lemma_path_body(directory, file, tail);
    lemma_last_segment(directory, file);
    if key.len() > 1 && is_separator(key[0]) && is_separator(key[1]) {
        if directory.len() == 0 {
            assert(key[0] == file[0]);
        } else if directory.len() == 1 {
            assert(key[1] == file[0]);
        } else {
            assert(key[0] == directory[0] && key[1] == directory[1]);
        }
    }
    if lacks(body, '/') && body.len() > 1 && body[1] == ':' {
        if directory.len() > 0 {
            assert(body[directory.len() - 1] == '/');
        } else {
            assert(body[1] == file[1]);
        }
    }
    assert(lacks(last_segment(path_body(key)), '\\'));
    assert(reads_alike(key));
}

/// A key that ends in `..` names no file: its asset has the whole key for a name.
pub proof fn parent_directory_names_no_file(directory: Seq<char>, name: Seq<char>)
    requires
        directory.len() > 0 ==> directory.last() == '/',
        !(directory.len() > 1 && (directory[0] == '/' || directory[0] == '\\') && (directory[1]
            == '/' || directory[1] == '\\')),
        is_asset_name(directory + ".."@, name),
    ensures
        name == directory + ".."@,
{
    reveal_strlit(".");
    reveal_strlit("..");
    let key = directory + ".."@;
    lemma_path_body(directory, ".."@, Seq::empty());
    assert(directory + ".."@ + Seq::<char>::empty() =~= key);
    lemma_last_segment(directory, ".."@);
    if key.len() > 1 && is_separator(key[0]) && is_separator(key[1]) {
        if directory.len() > 1 {
            assert(key[0] == directory[0] && key[1] == directory[1]);
        } else if directory.len() == 1 {
            assert(key[1] == ".."@[0]);
        } else {
            assert(key[0] == ".."@[0]);
        }
    }
    if directory.len() == 0 {
        assert(key[1] == ".."@[1]);
    } else {
        assert(key[directory.len() - 1] == '/');
    }
    assert(reads_alike(key));
}

/// The name of an asset is part of its key.
pub proof fn asset_name_stands_in_its_key(key: Seq<char>, name: Seq<char>)
    requires
        is_asset_name(key, name),
    ensures
        exists|before: Seq<char>, behind: Seq<char>| key == #[trigger] (before + name + behind),
{
    if !reads_alike(key) {
        found_text_stands_between(key, name);
    } else if path_file_name(key) is None {
        assert(key =~= Seq::<char>::empty() + key + Seq::<char>::empty());
    } else {
        lemma_body_begins_key(key);
        lemma_segment_ends_body(path_body(key));
        let body = path_body(key);
        let before = body.take(body.len() - name.len());
        let behind = key.skip(body.len() as int);
        assert(key =~= before + name + behind);
    }
}

/// What is left of a key begins it.
proof fn lemma_body_begins_key(key: Seq<char>)
    ensures
        path_body(key).len() <= key.len(),
        path_body(key) == key.take(path_body(key).len() as int),
    decreases key.len(),
{
    if path_body(key) == key {
        assert(key.take(key.len() as int) =~= key);
    } else {
        lemma_body_begins_key(key.drop_last());
        let n = path_body(key).len() as int;
        assert(key.drop_last().take(n) =~= key.take(n));
    }
}

/// The last segment ends a path.
proof fn lemma_segment_ends_body(key: Seq<char>)
    ensures
        last_segment(key).len() <= key.len(),
        last_segment(key) == key.skip(key.len() - last_segment(key).len()),
    decreases key.len(),
{
    let last = last_segment(key);
    if key.len() == 0 || key.last() == '/' {
        assert(key.skip(key.len() as int) =~= last);
    } else {
        let shorter = key.drop_last();
        lemma_segment_ends_body(shorter);
        let n = last_segment(shorter).len() as int;
        assert(shorter.skip(shorter.len() - n).push(key.last()) =~= key.skip(key.len() - n - 1));
    }
}

/// In a list as it grows every entry has a name and a version, and no two entries have both
/// in common.
pub proof fn entries_are_distinct(releases: Seq<ReleaseView>, i: int, j: int)
    requires
        is_catalog(releases),
        0 <= i < releases.len(),
        0 <= j < releases.len(),
    ensures
        releases[i].name.len() > 0,
        releases[i].version.len() > 0,
        releases[i].name == releases[j].name && releases[i].version == releases[j].version ==> i
            == j,
{
    if releases[i].name == releases[j].name && releases[i].version == releases[j].version {
        assert(same_release(releases[i], releases[j]) && same_release(releases[j], releases[i]));
    }
}

/// Nothing is left of a path of slashes and segments `.` behind them.
proof fn lemma_empty_body(key: Seq<char>)
    requires
        key.len() > 0 ==> key[0] == '/',
        forall|k: int|
            0 <= k < key.len() ==> #[trigger] key[k] == '/' || (key[k] == '.' && k > 0 && key[k - 1]
                == '/'),
    ensures
        path_body(key) == Seq::<char>::empty(),
    decreases key.len(),
{
    if key.len() == 0 {
        assert(key =~= Seq::empty());
    } else {
        assert(key[key.len() - 1] == '/' || key.len() > 1);
        lemma_empty_body(key.drop_last());
    }
}

/// A key of nothing but slashes and segments `.`, and an empty one, names no file: its asset
/// has the whole key for a name.
pub proof fn root_names_no_file(key: Seq<char>, name: Seq<char>)
    requires
        key.len() > 0 ==> key[0] == '/',
        key.len() > 1 ==> key[1] != '/',
        forall|k: int|
            0 <= k < key.len() ==> #[trigger] key[k] == '/' || (key[k] == '.' && k > 0 && key[k - 1]
                == '/'),
        is_asset_name(key, name),
    ensures
        name == key,
{
    lemma_empty_body(key);
    if key.len() > 1 {
        assert(key[1] == '.');
    }
    assert(reads_alike(key));
}

/// A key of segments `.` alone names no file: its asset has the whole key for a name.
pub proof fn current_directory_names_no_file(tail: Seq<char>, name: Seq<char>)
    requires
        tail.len() > 0 ==> tail[0] == '/',
        forall|k: int|
            0 <= k < tail.len() ==> #[trigger] tail[k] == '/' || (tail[k] == '.' && k > 0 && tail[k
                - 1] == '/'),
        is_asset_name("."@ + tail, name),
    ensures
        name == "."@ + tail,
{
    reveal_strlit(".");
    let key = "."@ + tail;
    lemma_path_body(Seq::empty(), "."@, tail);
    assert(Seq::<char>::empty() + "."@ + tail =~= key);
    assert(Seq::<char>::empty() + "."@ =~= "."@);
    lemma_last_segment(Seq::empty(), "."@);
    assert(key[0] == "."@[0]);
    assert(reads_alike(key));
}

} // verus!
