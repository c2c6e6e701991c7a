//! Releases and their assets.

use vstd::prelude::*;

use crate::text::{contains_text, found_text_stands_between, has_text};

verus! {

/// A file of a release.
#[derive(Debug)]
pub struct ReleaseAsset {
    pub name: String,
    pub download_url: String,
}

/// What a [`ReleaseAsset`] holds.
pub struct AssetView {
    pub name: Seq<char>,
    pub download_url: Seq<char>,
}

impl View for ReleaseAsset {
    type V = AssetView;

    open spec fn view(&self) -> AssetView {
        AssetView { name: self.name@, download_url: self.download_url@ }
    }
}

impl Clone for ReleaseAsset {
    fn clone(&self) -> (copy: Self)
        ensures
            copy == *self,
    {
        ReleaseAsset { name: self.name.clone(), download_url: self.download_url.clone() }
    }
}

/// A release: a version of a program, and the files it is published as.
#[derive(Debug)]
pub struct Release {
    pub name: String,
    pub version: String,
    pub date: String,
    pub assets: Vec<ReleaseAsset>,
}

/// What a [`Release`] holds.
#[verifier::ext_equal]
pub struct ReleaseView {
    pub name: Seq<char>,
    pub version: Seq<char>,
    pub date: Seq<char>,
    pub assets: Seq<AssetView>,
}

/// What the assets of `assets` hold, one by one.
pub open spec fn asset_views(assets: Seq<ReleaseAsset>) -> Seq<AssetView> {
    Seq::new(assets.len(), |i: int| assets[i]@)
}

/// What the releases of `releases` hold, one by one.
pub open spec fn release_views(releases: Seq<Release>) -> Seq<ReleaseView> {
    Seq::new(releases.len(), |i: int| releases[i]@)
}

impl View for Release {
    type V = ReleaseView;

    open spec fn view(&self) -> ReleaseView {
        ReleaseView {
            name: self.name@,
            version: self.version@,
            date: self.date@,
            assets: asset_views(self.assets@),
        }
    }
}

impl ReleaseView {
    /// One of the assets has `target` in its name.
    pub open spec fn has_target(self, target: Seq<char>) -> bool {
        exists|i: int| 0 <= i < self.assets.len() && has_text(#[trigger] self.assets[i].name, target)
    }
}

impl Clone for Release {
    fn clone(&self) -> (copy: Self)
        ensures
            copy@ == self@,
    {
        let mut assets: Vec<ReleaseAsset> = Vec::new();
        let mut i: usize = 0;
        while i < self.assets.len()
            invariant
                i <= self.assets@.len(),
                assets@ =~= self.assets@.take(i as int),
            decreases self.assets@.len() - i,
        {
            assets.push(self.assets[i].clone());
            i = i + 1;
        }
        Release {
            name: self.name.clone(),
            version: self.version.clone(),
            date: self.date.clone(),
            assets,
        }
    }
}

impl Release {
    /// Check if release has an asset whose name contains the specified `target`.
    pub fn has_target_asset(&self, target: &str) -> (found: bool)
        ensures
            found == self@.has_target(target@),
            found <==> exists|i: int|
                #![trigger self.assets@[i]]
                0 <= i < self.assets@.len() && exists|before: Seq<char>, behind: Seq<char>|
                    self.assets@[i].name@ == #[trigger] (before + target@ + behind),
    {
        proof {
            assert forall|i: int| 0 <= i < self.assets@.len() implies (has_text(
                #[trigger] self.assets@[i].name@,
                target@,
            ) <==> exists|before: Seq<char>, behind: Seq<char>|
                self.assets@[i].name@ == #[trigger] (before + target@ + behind)) by {
                found_text_stands_between(self.assets@[i].name@, target@);
            }
        }
        let mut i: usize = 0;
        while i < self.assets.len()
            invariant
                i <= self.assets@.len(),
                forall|i: int|
                    0 <= i < self.assets@.len() ==> (has_text(
                        #[trigger] self.assets@[i].name@,
                        target@,
                    ) <==> exists|before: Seq<char>, behind: Seq<char>|
                        self.assets@[i].name@ == #[trigger] (before + target@ + behind)),
                forall|k: int| 0 <= k < i ==> !has_text(#[trigger] self.assets@[k].name@, target@),
            decreases self.assets@.len() - i,
        {
            if contains_text(self.assets[i].name.as_str(), target) {
                assert(has_text(self@.assets[i as int].name, target@));
                return true;
            }
            i = i + 1;
        }
        assert forall|k: int| 0 <= k < self@.assets.len() implies !has_text(
            #[trigger] self@.assets[k].name,
            target@,
        ) by {
            assert(self@.assets[k].name == self.assets@[k].name@);
        }
        false
    }
}

/// A release is for a target exactly if the target stands in the name of one of its assets.
pub proof fn target_stands_in_an_asset_name(release: ReleaseView, target: Seq<char>)
    ensures
        release.has_target(target) <==> exists|i: int|
            #![trigger release.assets[i]]
            0 <= i < release.assets.len() && exists|before: Seq<char>, behind: Seq<char>|
                release.assets[i].name == #[trigger] (before + target + behind),
{
    assert forall|i: int| 0 <= i < release.assets.len() implies (has_text(
        #[trigger] release.assets[i].name,
        target,
    ) <==> exists|before: Seq<char>, behind: Seq<char>|
        release.assets[i].name == #[trigger] (before + target + behind)) by {
        found_text_stands_between(release.assets[i].name, target);
    }
    if release.has_target(target) {
        let i = choose|i: int|
            0 <= i < release.assets.len() && has_text(#[trigger] release.assets[i].name, target);
        assert(release.assets[i].name == release.assets[i].name);
    }
}

/// What a release shows is what it holds: name, version, date, and its assets in order.
pub proof fn releases_show_what_they_hold(release: Release, i: int)
    requires
        0 <= i < release.assets@.len(),
    ensures
        release@.assets[i].name == release.assets@[i].name@,
        release@.assets[i].download_url == release.assets@[i].download_url@,
{
}

/// What a release shows is what it holds, also where it has no assets.
pub proof fn releases_show_their_version(release: Release)
    ensures
        release@.name == release.name@,
        release@.version == release.version@,
        release@.date == release.date@,
        release@.assets.len() == release.assets@.len(),
{
}

/// A list shows its releases one by one.
pub proof fn lists_show_their_releases(releases: Seq<Release>)
    ensures
        release_views(releases).len() == releases.len(),
        forall|i: int|
            0 <= i < releases.len() ==> #[trigger] release_views(releases)[i] == releases[i]@,
{
}

} // verus!
