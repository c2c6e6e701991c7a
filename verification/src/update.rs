//! Updating to a release of a bucket.

use vstd::prelude::*;

use crate::endpoint::EndPoint;
use crate::errors::{config_error, ErrorView, UpdateError};
use crate::listing::{fetch_releases_from_s3, fresh_listing, Listing};
use crate::release::{release_views, Release, ReleaseView};
use crate::selection::{
    find_version, is_latest, latest_index, newer_than, none_is_newer_than_latest, oldest_first,
    retain_newer, sort_oldest_first, sorted_releases_rise, sorting_keeps_releases, Scale,
};
use crate::text::{copy_text, end_is_trimmed, occurs_at, text_of, trim_end, trimmed_end};
use crate::version::{is_pre_release_of, is_semver, semver_exceeds};

verus! {

/// How the progress of a download is laid out, where nothing else is set.
pub const DEFAULT_PROGRESS_TEMPLATE: &'static str =
    "[{elapsed_precise}] [{bar:40}] {bytes}/{total_bytes} ({eta}) {msg}";

/// The characters that the progress of a download is drawn with, where nothing else is
/// set.
pub const DEFAULT_PROGRESS_CHARS: &'static str = "=>-";

/// The bytes of a verifying key.
pub const PUBLIC_KEY_LENGTH: usize = 32;

/// A path of the machine, carried through as it is.
#[verifier::external_type_specification]
#[verifier::external_body]
pub struct ExPathBuf(std::path::PathBuf);

/// `std::path::PathBuf`'s `clone`: the copy is the same path.
pub assume_specification[ <std::path::PathBuf as Clone>::clone ](path: &std::path::PathBuf) -> (copy:
    std::path::PathBuf)
    ensures
        copy == *path,
;

/// `name` as the name of an executable: with `suffix` at its end, once, whether it was
/// there before or not.
pub open spec fn executable_name(name: Seq<char>, suffix: Seq<char>) -> Seq<char> {
    trimmed_end(name, suffix) + suffix
}

/// `s3::Update` builder
///
/// Configure download and installation from
/// `https://<bucket_name>.s3.<region>.amazonaws.com/<asset filename>`
#[derive(Debug)]
pub struct UpdateBuilder {
    end_point: EndPoint,
    bucket_name: Option<String>,
    asset_prefix: Option<String>,
    target: Option<String>,
    region: Option<String>,
    bin_name: Option<String>,
    bin_install_path: Option<std::path::PathBuf>,
    bin_path_in_archive: Option<String>,
    show_download_progress: bool,
    show_output: bool,
    no_confirm: bool,
    current_version: Option<String>,
    target_version: Option<String>,
    progress_template: String,
    progress_chars: String,
    auth_token: Option<String>,
    verifying_keys: Vec<[u8; PUBLIC_KEY_LENGTH]>,
}

/// What an [`UpdateBuilder`] is set to.
pub struct UpdateBuilderView {
    pub end_point: EndPoint,
    pub bucket_name: Option<Seq<char>>,
    pub asset_prefix: Option<Seq<char>>,
    pub target: Option<Seq<char>>,
    pub region: Option<Seq<char>>,
    pub bin_name: Option<Seq<char>>,
    pub bin_install_path: Option<std::path::PathBuf>,
    pub bin_path_in_archive: Option<Seq<char>>,
    pub show_download_progress: bool,
    pub show_output: bool,
    pub no_confirm: bool,
    pub current_version: Option<Seq<char>>,
    pub target_version: Option<Seq<char>>,
    pub progress_template: Seq<char>,
    pub progress_chars: Seq<char>,
    pub auth_token: Option<Seq<char>>,
    pub verifying_keys: Seq<[u8; PUBLIC_KEY_LENGTH]>,
}

impl View for UpdateBuilder {
    type V = UpdateBuilderView;

    closed spec fn view(&self) -> UpdateBuilderView {
        UpdateBuilderView {
            end_point: self.end_point,
            bucket_name: text_of(self.bucket_name),
            asset_prefix: text_of(self.asset_prefix),
            target: text_of(self.target),
            region: text_of(self.region),
            bin_name: text_of(self.bin_name),
            bin_install_path: self.bin_install_path,
            bin_path_in_archive: text_of(self.bin_path_in_archive),
            show_download_progress: self.show_download_progress,
            show_output: self.show_output,
            no_confirm: self.no_confirm,
            current_version: text_of(self.current_version),
            target_version: text_of(self.target_version),
            progress_template: self.progress_template@,
            progress_chars: self.progress_chars@,
            auth_token: text_of(self.auth_token),
            verifying_keys: self.verifying_keys@,
        }
    }
}

/// The builder to which nothing has been set.
pub open spec fn default_builder() -> UpdateBuilderView {
    UpdateBuilderView {
        end_point: EndPoint::S3,
        bucket_name: None,
        asset_prefix: None,
        target: None,
        region: None,
        bin_name: None,
        bin_install_path: None,
        bin_path_in_archive: None,
        show_download_progress: false,
        show_output: true,
        no_confirm: false,
        current_version: None,
        target_version: None,
        progress_template: DEFAULT_PROGRESS_TEMPLATE@,
        progress_chars: DEFAULT_PROGRESS_CHARS@,
        auth_token: None,
        verifying_keys: Seq::empty(),
    }
}

impl UpdateBuilderView {
    /// Where the executable is named, its path in the archive is known too.
    pub open spec fn knows_archive_path(self) -> bool {
        self.bin_name is Some ==> self.bin_path_in_archive is Some
    }

    /// The builder with the name of the executable set.
    pub open spec fn with_bin_name(self, name: Seq<char>, exe_suffix: Seq<char>) -> Self {
        let bin_name = executable_name(name, exe_suffix);
        UpdateBuilderView {
            bin_name: Some(bin_name),
            bin_path_in_archive: match self.bin_path_in_archive {
                Some(path) => Some(path),
                None => Some(bin_name),
            },
            ..self
        }
    }

    /// Why the builder builds nothing; `missing_exe` is the account of why the path of
    /// the running executable is not known, if it is not.
    pub open spec fn refusal(self, missing_exe: Option<Seq<char>>) -> Option<ErrorView> {
        if self.bin_install_path is None && missing_exe is Some {
            Some(ErrorView::Io(missing_exe->0))
        } else if self.bucket_name is None {
            Some(ErrorView::Config("`bucket_name` required"@))
        } else if self.bin_name is None {
            Some(ErrorView::Config("`bin_name` required"@))
        } else if self.bin_path_in_archive is None {
            Some(ErrorView::Config("`bin_path_in_archive` required"@))
        } else if self.current_version is None {
            Some(ErrorView::Config("`current_version` required"@))
        } else {
            None
        }
    }

    /// What the builder builds, where it builds something.
    pub open spec fn built(
        self,
        current_exe: std::path::PathBuf,
        build_target: Seq<char>,
    ) -> UpdateView {
        UpdateView {
            end_point: self.end_point,
            bucket_name: self.bucket_name->0,
            asset_prefix: self.asset_prefix,
            target: match self.target {
                Some(target) => target,
                None => build_target,
            },
            region: self.region,
            current_version: self.current_version->0,
            target_version: self.target_version,
            bin_name: self.bin_name->0,
            bin_install_path: match self.bin_install_path {
                Some(path) => path,
                None => current_exe,
            },
            bin_path_in_archive: self.bin_path_in_archive->0,
            show_download_progress: self.show_download_progress,
            show_output: self.show_output,
            no_confirm: self.no_confirm,
            progress_template: self.progress_template,
            progress_chars: self.progress_chars,
            auth_token: self.auth_token,
            verifying_keys: self.verifying_keys,
        }
    }
}

impl Default for UpdateBuilder {
    fn default() -> (builder: Self)
        ensures
            builder@ == default_builder(),
    {
        let verifying_keys: Vec<[u8; PUBLIC_KEY_LENGTH]> = Vec::new();
        UpdateBuilder {
            end_point: EndPoint::default(),
            bucket_name: None,
            asset_prefix: None,
            target: None,
            region: None,
            bin_name: None,
            bin_install_path: None,
            bin_path_in_archive: None,
            show_download_progress: false,
            show_output: true,
            no_confirm: false,
            current_version: None,
            target_version: None,
            progress_template: DEFAULT_PROGRESS_TEMPLATE.to_owned(),
            progress_chars: DEFAULT_PROGRESS_CHARS.to_owned(),
            auth_token: None,
            verifying_keys,
        }
    }
}

/// Configure download and installation from bucket
impl UpdateBuilder {
    #[verifier::type_invariant]
    closed spec fn is_sound(self) -> bool {
        self.bin_name is Some ==> self.bin_path_in_archive is Some
    }

    /// Initialize a new builder
    pub fn new() -> (builder: Self)
        ensures
            builder@ == default_builder(),
    {
        UpdateBuilder::default()
    }

    /// Set the end point
    pub fn end_point(&mut self, end_point: EndPoint) -> (this: &mut Self)
        ensures
            this@ == (UpdateBuilderView { end_point, ..old(self)@ }),
            *final(self) == *final(this),
    {
        proof {
            use_type_invariant(&*self);
        }
        self.end_point = end_point;
        self
    }

    /// Set the bucket name, used to build a s3 api url
    pub fn bucket_name(&mut self, name: &str) -> (this: &mut Self)
        ensures
            this@ == (UpdateBuilderView { bucket_name: Some(name@), ..old(self)@ }),
            *final(self) == *final(this),
    {
        proof {
            use_type_invariant(&*self);
        }
        self.bucket_name = Some(name.to_owned());
        self
    }

    /// Set the optional asset name prefix, used to filter available assets with a prefix string
    pub fn asset_prefix(&mut self, prefix: &str) -> (this: &mut Self)
        ensures
            this@ == (UpdateBuilderView { asset_prefix: Some(prefix@), ..old(self)@ }),
            *final(self) == *final(this),
    {
        proof {
            use_type_invariant(&*self);
        }
        self.asset_prefix = Some(prefix.to_owned());
        self
    }

    /// Set the S3 region used in the download url
    pub fn region(&mut self, region: &str) -> (this: &mut Self)
        ensures
            this@ == (UpdateBuilderView { region: Some(region@), ..old(self)@ }),
            *final(self) == *final(this),
    {
        proof {
            use_type_invariant(&*self);
        }
        self.region = Some(region.to_owned());
        self
    }

    /// Set the current app version, used to compare against the latest available version.
    pub fn current_version(&mut self, ver: &str) -> (this: &mut Self)
        ensures
            this@ == (UpdateBuilderView { current_version: Some(ver@), ..old(self)@ }),
            *final(self) == *final(this),
    {
        proof {
            use_type_invariant(&*self);
        }
        self.current_version = Some(ver.to_owned());
        self
    }

    /// Set the target version tag to update to. This will be used to search for a release
    /// by tag name.
    ///
    /// If not specified, the latest available release is used.
    pub fn target_version_tag(&mut self, ver: &str) -> (this: &mut Self)
        ensures
            this@ == (UpdateBuilderView { target_version: Some(ver@), ..old(self)@ }),
            *final(self) == *final(this),
    {
        proof {
            use_type_invariant(&*self);
        }
        self.target_version = Some(ver.to_owned());
        self
    }

    /// Set the target triple that will be downloaded, e.g. `x86_64-unknown-linux-gnu`.
    ///
    /// If unspecified, the build target of the program will be used
    pub fn target(&mut self, target: &str) -> (this: &mut Self)
        ensures
            this@ == (UpdateBuilderView { target: Some(target@), ..old(self)@ }),
            *final(self) == *final(this),
    {
        proof {
            use_type_invariant(&*self);
        }
        self.target = Some(target.to_owned());
        self
    }

    /// Set the exe's name. Also sets `bin_path_in_archive` if it hasn't already been set.
    ///
    /// `exe_suffix` is what the names of executables end with on the machine.
    pub fn bin_name(&mut self, name: &str, exe_suffix: &str) -> (this: &mut Self)
        ensures
            this@ == old(self)@.with_bin_name(name@, exe_suffix@),
            *final(self) == *final(this),
    {
        proof {
            use_type_invariant(&*self);
        }
        let raw_bin_name = trim_end(name, exe_suffix).to_owned().concat(exe_suffix);
        if self.bin_path_in_archive.is_none() {
            self.bin_path_in_archive = Some(raw_bin_name.clone());
        }
        self.bin_name = Some(raw_bin_name);
        self
    }

    /// Set the installation path for the new exe, defaults to the current
    /// executable's path
    pub fn bin_install_path(&mut self, bin_install_path: std::path::PathBuf) -> (this: &mut Self)
        ensures
            this@ == (UpdateBuilderView { bin_install_path: Some(bin_install_path), ..old(self)@ }),
            *final(self) == *final(this),
    {
        proof {
            use_type_invariant(&*self);
        }
        self.bin_install_path = Some(bin_install_path);
        self
    }

    /// Set the path of the exe inside the release tarball. This is the location
    /// of the executable relative to the base of the tar'd directory and is the
    /// path that will be copied to the `bin_install_path`. If not specified, this
    /// will default to the value of `bin_name`.
    ///
    /// This also supports variable paths, which the installer fills in:
    /// - `{{ bin }}` is replaced with the value of `bin_name`
    /// - `{{ target }}` is replaced with the value of `target`
    /// - `{{ version }}` is replaced with the value of `target_version` if set,
    ///   otherwise the value of the latest available release version is used.
    pub fn bin_path_in_archive(&mut self, bin_path: &str) -> (this: &mut Self)
        ensures
            this@ == (UpdateBuilderView { bin_path_in_archive: Some(bin_path@), ..old(self)@ }),
            *final(self) == *final(this),
    {
        proof {
            use_type_invariant(&*self);
        }
        self.bin_path_in_archive = Some(bin_path.to_owned());
        self
    }

    /// Toggle download progress bar, defaults to `off`.
    pub fn show_download_progress(&mut self, show: bool) -> (this: &mut Self)
        ensures
            this@ == (UpdateBuilderView { show_download_progress: show, ..old(self)@ }),
            *final(self) == *final(this),
    {
        proof {
            use_type_invariant(&*self);
        }
        self.show_download_progress = show;
        self
    }

    /// Set download progress style.
    pub fn set_progress_style(&mut self, progress_template: String, progress_chars: String) -> (this: &mut Self)
        ensures
            this@ == (UpdateBuilderView { progress_template: progress_template@, progress_chars: progress_chars@, ..old(self)@ }),
            *final(self) == *final(this),
    {
        proof {
            use_type_invariant(&*self);
        }
        self.progress_template = progress_template;
        self.progress_chars = progress_chars;
        self
    }

    /// Toggle update output information, defaults to `true`.
    pub fn show_output(&mut self, show: bool) -> (this: &mut Self)
        ensures
            this@ == (UpdateBuilderView { show_output: show, ..old(self)@ }),
            *final(self) == *final(this),
    {
        proof {
            use_type_invariant(&*self);
        }
        self.show_output = show;
        self
    }

    /// Toggle download confirmation. Defaults to `false`.
    pub fn no_confirm(&mut self, no_confirm: bool) -> (this: &mut Self)
        ensures
            this@ == (UpdateBuilderView { no_confirm, ..old(self)@ }),
            *final(self) == *final(this),
    {
        proof {
            use_type_invariant(&*self);
        }
        self.no_confirm = no_confirm;
        self
    }

    /// Set the authorization token or AWS credentials, used in requests to the S3 API
    ///
    /// For AWS S3 buckets that require authentication, provide credentials in the format
    /// "ACCESS_KEY:SECRET_KEY". It is recommended to obtain them from the environment or
    /// from the user, and not to bake them into a program.
    pub fn auth_token(&mut self, auth_token: &str) -> (this: &mut Self)
        ensures
            this@ == (UpdateBuilderView { auth_token: Some(auth_token@), ..old(self)@ }),
            *final(self) == *final(this),
    {
        proof {
            use_type_invariant(&*self);
        }
        self.auth_token = Some(auth_token.to_owned());
        self
    }

    /// Specify a list of ed25519ph verifying keys to validate a download's authenticy
    ///
    /// If at least one key was provided, a download is verified. At least one key has to
    /// match.
    pub fn verifying_keys(&mut self, keys: Vec<[u8; PUBLIC_KEY_LENGTH]>) -> (this: &mut Self)
        ensures
            this@ == (UpdateBuilderView { verifying_keys: keys@, ..old(self)@ }),
            *final(self) == *final(this),
    {
        proof {
            use_type_invariant(&*self);
        }
        self.verifying_keys = keys;
        self
    }

    /// Confirm config and create a ready-to-use `Update`
    ///
    /// `current_exe` is the path of the running executable, or the machine's account of
    /// why it is not known, and `build_target` the target that the program was built
    /// for. Each is used where nothing was set in its place.
    ///
    /// * Errors:
    ///     * Io - The path of the running executable is needed and not known
    ///     * Config - Invalid `Update` configuration
    pub fn build(
        &self,
        current_exe: Result<std::path::PathBuf, String>,
        build_target: &str,
    ) -> (update: Result<Update, UpdateError>)
        ensures
            self@.knows_archive_path(),
            update is Ok <==> self@.refusal(missing(current_exe)) is None,
            update matches Ok(built) ==> built@ == self@.built(current_exe->Ok_0, build_target@),
            update matches Err(error) ==> self@.refusal(missing(current_exe)) == Some(error@),
            update is Ok <==> {
                &&& self@.bin_install_path is Some || current_exe is Ok
                &&& self@.bucket_name is Some
                &&& self@.bin_name is Some
                &&& self@.current_version is Some
            },
    {
        proof {
            use_type_invariant(self);
        }
        let bin_install_path = match &self.bin_install_path {
            Some(path) => path.clone(),
            None => match current_exe {
                Ok(path) => path,
                Err(account) => return Err(UpdateError::Io(account)),
            },
        };
        let bucket_name = match &self.bucket_name {
            Some(name) => name.clone(),
            None => return Err(config_error("`bucket_name` required")),
        };
        let target = match &self.target {
            Some(target) => target.clone(),
            None => build_target.to_owned(),
        };
        let bin_name = match &self.bin_name {
            Some(name) => name.clone(),
            None => return Err(config_error("`bin_name` required")),
        };
        let bin_path_in_archive = match &self.bin_path_in_archive {
            Some(path) => path.clone(),
            None => return Err(config_error("`bin_path_in_archive` required")),
        };
        let current_version = match &self.current_version {
            Some(version) => version.clone(),
            None => return Err(config_error("`current_version` required")),
        };
        Ok(
            Update {
                end_point: self.end_point,
                bucket_name,
                asset_prefix: copy_text(&self.asset_prefix),
                target,
                region: copy_text(&self.region),
                current_version,
                target_version: copy_text(&self.target_version),
                bin_name,
                bin_install_path,
                bin_path_in_archive,
                show_download_progress: self.show_download_progress,
                show_output: self.show_output,
                no_confirm: self.no_confirm,
                progress_template: self.progress_template.clone(),
                progress_chars: self.progress_chars.clone(),
                auth_token: copy_text(&self.auth_token),
                verifying_keys: copy_keys(&self.verifying_keys),
            },
        )
    }
}

/// The account of why the path of the running executable is not known, if it is not.
pub open spec fn missing(current_exe: Result<std::path::PathBuf, String>) -> Option<Seq<char>> {
    match current_exe {
        Ok(_) => None,
        Err(account) => Some(account@),
    }
}

/// A copy of a list of keys.
fn copy_keys(keys: &Vec<[u8; PUBLIC_KEY_LENGTH]>) -> (copy: Vec<[u8; PUBLIC_KEY_LENGTH]>)
    ensures
        copy@ == keys@,
{
    let mut copy: Vec<[u8; PUBLIC_KEY_LENGTH]> = Vec::new();
    let mut i: usize = 0;
    while i < keys.len()
        invariant
            i <= keys@.len(),
            copy@ == keys@.take(i as int),
        decreases keys@.len() - i,
    {
        copy.push(keys[i]);
        assert(keys@.take(i + 1) =~= keys@.take(i as int).push(keys@[i as int]));
        i = i + 1;
    }
    assert(keys@.take(i as int) =~= keys@);
    copy
}

/// Updates to a specified or latest release distributed via S3
#[derive(Debug)]
pub struct Update {
    end_point: EndPoint,
    bucket_name: String,
    asset_prefix: Option<String>,
    target: String,
    region: Option<String>,
    current_version: String,
    target_version: Option<String>,
    bin_name: String,
    bin_install_path: std::path::PathBuf,
    bin_path_in_archive: String,
    show_download_progress: bool,
    show_output: bool,
    no_confirm: bool,
    progress_template: String,
    progress_chars: String,
    auth_token: Option<String>,
    verifying_keys: Vec<[u8; PUBLIC_KEY_LENGTH]>,
}

/// What an [`Update`] is set to.
pub struct UpdateView {
    pub end_point: EndPoint,
    pub bucket_name: Seq<char>,
    pub asset_prefix: Option<Seq<char>>,
    pub target: Seq<char>,
    pub region: Option<Seq<char>>,
    pub current_version: Seq<char>,
    pub target_version: Option<Seq<char>>,
    pub bin_name: Seq<char>,
    pub bin_install_path: std::path::PathBuf,
    pub bin_path_in_archive: Seq<char>,
    pub show_download_progress: bool,
    pub show_output: bool,
    pub no_confirm: bool,
    pub progress_template: Seq<char>,
    pub progress_chars: Seq<char>,
    pub auth_token: Option<Seq<char>>,
    pub verifying_keys: Seq<[u8; PUBLIC_KEY_LENGTH]>,
}

impl View for Update {
    type V = UpdateView;

    closed spec fn view(&self) -> UpdateView {
        UpdateView {
            end_point: self.end_point,
            bucket_name: self.bucket_name@,
            asset_prefix: text_of(self.asset_prefix),
            target: self.target@,
            region: text_of(self.region),
            current_version: self.current_version@,
            target_version: text_of(self.target_version),
            bin_name: self.bin_name@,
            bin_install_path: self.bin_install_path,
            bin_path_in_archive: self.bin_path_in_archive@,
            show_download_progress: self.show_download_progress,
            show_output: self.show_output,
            no_confirm: self.no_confirm,
            progress_template: self.progress_template@,
            progress_chars: self.progress_chars@,
            auth_token: text_of(self.auth_token),
            verifying_keys: self.verifying_keys@,
        }
    }
}

/// A release of the given version stands in the list.
pub open spec fn has_version(releases: Seq<ReleaseView>, version: Seq<char>) -> bool {
    exists|i: int| 0 <= i < releases.len() && (#[trigger] releases[i]).version == version
}

/// `release` is the first of the given version in the list.
pub open spec fn is_first_of_version(
    releases: Seq<ReleaseView>,
    version: Seq<char>,
    release: ReleaseView,
) -> bool {
    exists|i: int|
        0 <= i < releases.len() && #[trigger] releases[i] == release && release.version == version
            && (forall|k: int| 0 <= k < i ==> (#[trigger] releases[k]).version != version)
}

impl Update {
    /// Initialize a new `Update` builder
    pub fn configure() -> (builder: UpdateBuilder)
        ensures
            builder@ == default_builder(),
    {
        UpdateBuilder::new()
    }

    /// The listing of the bucket, which the choices below take the releases of.
    ///
    /// Fails where no region is given.
    pub fn listing(&self) -> (listing: Result<Listing, UpdateError>)
        ensures
            listing is Ok <==> self@.region is Some,
            listing matches Ok(fresh) ==> fresh@ == fresh_listing(
                self@.end_point,
                self@.bucket_name,
                self@.region->0,
                self@.asset_prefix,
                self@.auth_token,
            ),
            listing matches Err(error) ==> error@ == ErrorView::Config("`region` required"@),
    {
        fetch_releases_from_s3(
            self.end_point,
            self.bucket_name.as_str(),
            &self.region,
            &self.asset_prefix,
            &self.auth_token,
        )
    }

    /// The latest of the releases that were fetched. Versions that cannot be read are
    /// ignored.
    ///
    /// Fails where the listing failed, and where there is no release.
    pub fn get_latest_release(&self, fetched: Result<Vec<Release>, UpdateError>) -> (latest: Result<
        Release,
        UpdateError,
    >)
        ensures
            fetched matches Err(error) ==> latest == Err::<Release, UpdateError>(error),
            fetched matches Ok(all) ==> (latest is Ok <==> all@.len() > 0),
            fetched matches Ok(all) ==> (latest matches Ok(release) ==> exists|at: int|
                0 <= at < all@.len() && release@ == #[trigger] release_views(all@)[at]
                    && is_latest(Scale::Semver, release_views(all@), at) && (forall|by: Scale|
                    by.suits_all(release_views(all@)) ==> #[trigger] is_latest(
                        by,
                        release_views(all@),
                        at,
                    ))),
            fetched is Ok ==> (latest matches Err(error) ==> error@ == ErrorView::Release(
                "No release was found"@,
            )),
            fetched matches Ok(all) ==> (latest matches Ok(release) ==> exists|at: int|
                0 <= at < all@.len() && release@ == (#[trigger] all@[at])@),
            fetched matches Ok(all) ==> (latest matches Ok(release) ==> forall|i: int|
                0 <= i < all@.len() && is_semver((#[trigger] all@[i]).version@) ==> is_semver(
                    release.version@,
                ) && (all@[i]@ == release@ || !semver_exceeds(all@[i].version@, release.version@))),
    {
        match fetched {
            Ok(all) => {
                if all.is_empty() {
                    Err(UpdateError::Release("No release was found".to_owned()))
                } else {
                    let at = latest_index(&all);
                    let latest = all[at].clone();
                    proof {
                        let views = release_views(all@);
                        assert(latest@ == views[at as int]);
                        assert(latest@ == all@[at as int]@);
                        assert(is_latest(Scale::Semver, views, at as int));
                        assert forall|i: int|
                            0 <= i < all@.len() && is_semver(
                                (#[trigger] all@[i]).version@,
                            ) implies is_semver(latest.version@) && (all@[i]@ == latest@
                            || !semver_exceeds(all@[i].version@, latest.version@)) by {
                            assert(views[i].version == all@[i].version@);
                            assert(latest@.version == latest.version@);
                            if i != at {
                                none_is_newer_than_latest(Scale::Semver, views, at as int, i);
                            }
                        }
                    }
                    Ok(latest)
                }
            },
            Err(error) => Err(error),
        }
    }

    /// The releases that were fetched and are newer than `current_version`, the oldest
    /// first.
    ///
    /// Fails where the listing failed.
    pub fn get_latest_releases(
        &self,
        current_version: &str,
        fetched: Result<Vec<Release>, UpdateError>,
    ) -> (newer: Result<Vec<Release>, UpdateError>)
        ensures
            fetched matches Err(error) ==> newer == Err::<Vec<Release>, UpdateError>(error),
            fetched matches Ok(all) ==> (newer matches Ok(sorted) && forall|by: Scale|
                by.suits(current_version@) && by.suits_all(release_views(all@))
                    ==> #[trigger] oldest_first(
                    by,
                    newer_than(by, release_views(all@), current_version@),
                    release_views(sorted@),
                )),
            fetched matches Ok(all) ==> (newer matches Ok(sorted) && oldest_first(
                Scale::Semver,
                newer_than(Scale::Semver, release_views(all@), current_version@),
                release_views(sorted@),
            )),
            fetched matches Ok(all) ==> (newer matches Ok(sorted) && release_views(
                sorted@,
            ).to_multiset() == release_views(all@).filter(
                |r: ReleaseView|
                    is_semver(r.version) && is_semver(current_version@) && semver_exceeds(
                        r.version,
                        current_version@,
                    ),
            ).to_multiset()),
            fetched is Ok ==> (newer matches Ok(sorted) && forall|a: int, b: int|
                0 <= a < b < sorted@.len() ==> !semver_exceeds(
                    (#[trigger] sorted@[a]).version@,
                    (#[trigger] sorted@[b]).version@,
                )),
            fetched matches Ok(all) ==> (newer matches Ok(sorted) && (is_semver(current_version@)
                ==> forall|k: int|
                0 <= k < all@.len() && is_pre_release_of(
                    current_version@,
                    (#[trigger] all@[k]).version@,
                ) ==> release_views(sorted@).contains(all@[k]@))),
    {
        match fetched {
            Ok(all) => {
                let mut newer = retain_newer(&all, current_version);
                let ghost kept = release_views(newer@);
                sort_oldest_first(&mut newer);
                proof {
                    let sorted = release_views(newer@);
                    assert(Scale::Semver.suits_all(release_views(all@)));
                    assert(Scale::Semver.suits_all(kept));
                    assert(oldest_first(Scale::Semver, kept, sorted));
                    assert forall|i: int| 0 <= i < kept.len() implies is_semver(
                        (#[trigger] kept[i]).version,
                    ) by {
                        assert(Scale::Semver.suits(kept[i].version));
                        assert(Scale::Semver.reads(kept[i].version));
                    }
                    sorted_releases_rise(kept, sorted);
                    assert forall|a: int, b: int| 0 <= a < b < newer@.len() implies !semver_exceeds(
                        (#[trigger] newer@[a]).version@,
                        (#[trigger] newer@[b]).version@,
                    ) by {
                        assert(sorted[a].version == newer@[a].version@);
                        assert(sorted[b].version == newer@[b].version@);
                    }
                    assert forall|r: ReleaseView| #[trigger] kept.contains(r) implies sorted.contains(
                        r,
                    ) by {
                        sorting_keeps_releases(Scale::Semver, kept, sorted, r);
                    }
                }
                Ok(newer)
            },
            Err(error) => Err(error),
        }
    }

    /// The first of the releases that were fetched whose version is `ver`.
    ///
    /// Fails where the listing failed, and where no release has that version.
    pub fn get_release_version(
        &self,
        ver: &str,
        fetched: Result<Vec<Release>, UpdateError>,
    ) -> (found: Result<Release, UpdateError>)
        ensures
            fetched matches Err(error) ==> found == Err::<Release, UpdateError>(error),
            fetched matches Ok(all) ==> (found is Ok <==> has_version(release_views(all@), ver@)),
            fetched matches Ok(all) ==> (found matches Ok(release) ==> is_first_of_version(
                release_views(all@),
                ver@,
                release@,
            )),
            fetched is Ok ==> (found matches Err(error) ==> error@ == ErrorView::Release(
                "No release with version '"@ + ver@ + "' was found"@,
            )),
            fetched matches Ok(all) ==> (found is Ok <==> exists|i: int|
                0 <= i < all@.len() && (#[trigger] all@[i]).version@ == ver@),
            fetched matches Ok(all) ==> (found matches Ok(release) ==> release.version@ == ver@
                && exists|i: int|
                0 <= i < all@.len() && (#[trigger] all@[i])@ == release@ && (forall|k: int|
                    0 <= k < i ==> (#[trigger] all@[k]).version@ != ver@)),
    {
        match fetched {
            Ok(all) => {
                let version = ver.to_owned();
                let ghost views = release_views(all@);
                match find_version(&all, &version) {
                    Some(at) => {
                        proof {
                            assert(views[at as int] == all@[at as int]@);
                            assert forall|k: int| 0 <= k < at implies (#[trigger] views[k]).version
                                != ver@ by {
                                assert(views[k].version == all@[k].version@);
                            }
                        }
                        Ok(all[at].clone())
                    },
                    None => {
                        proof {
                            assert forall|k: int| 0 <= k < views.len() implies (
                            #[trigger] views[k]).version != ver@ by {
                                assert(views[k].version == all@[k].version@);
                            }
                        }
                        Err(
                            UpdateError::Release(
                                "No release with version '".to_owned().concat(ver).concat(
                                    "' was found",
                                ),
                            ),
                        )
                    },
                }
            },
            Err(error) => Err(error),
        }
    }

    /// The current version.
    pub fn current_version(&self) -> (value: String)
        ensures
            value@ == self@.current_version,
    {
        self.current_version.clone()
    }

    /// The target triple.
    pub fn target(&self) -> (value: String)
        ensures
            value@ == self@.target,
    {
        self.target.clone()
    }

    /// The version to update to, if one is set.
    pub fn target_version(&self) -> (value: Option<String>)
        ensures
            text_of(value) == self@.target_version,
    {
        copy_text(&self.target_version)
    }

    /// The name of the executable.
    pub fn bin_name(&self) -> (value: String)
        ensures
            value@ == self@.bin_name,
    {
        self.bin_name.clone()
    }

    /// Where the executable is installed.
    pub fn bin_install_path(&self) -> (value: std::path::PathBuf)
        ensures
            value == self@.bin_install_path,
    {
        self.bin_install_path.clone()
    }

    /// Where the executable stands in the archive.
    pub fn bin_path_in_archive(&self) -> (value: String)
        ensures
            value@ == self@.bin_path_in_archive,
    {
        self.bin_path_in_archive.clone()
    }

    /// Whether the progress of a download is shown.
    pub fn show_download_progress(&self) -> (value: bool)
        ensures
            value == self@.show_download_progress,
    {
        self.show_download_progress
    }

    /// Whether the update reports what it does.
    pub fn show_output(&self) -> (value: bool)
        ensures
            value == self@.show_output,
    {
        self.show_output
    }

    /// Whether the update goes on without asking.
    pub fn no_confirm(&self) -> (value: bool)
        ensures
            value == self@.no_confirm,
    {
        self.no_confirm
    }

    /// How the progress of a download is laid out.
    pub fn progress_template(&self) -> (value: String)
        ensures
            value@ == self@.progress_template,
    {
        self.progress_template.clone()
    }

    /// The characters that the progress of a download is drawn with.
    pub fn progress_chars(&self) -> (value: String)
        ensures
            value@ == self@.progress_chars,
    {
        self.progress_chars.clone()
    }

    /// The authorization token, if one is set.
    pub fn auth_token(&self) -> (value: Option<String>)
        ensures
            text_of(value) == self@.auth_token,
    {
        copy_text(&self.auth_token)
    }

    /// The keys of which one has to match a download.
    pub fn verifying_keys(&self) -> (value: &[[u8; PUBLIC_KEY_LENGTH]])
        ensures
            value@ == self@.verifying_keys,
    {
        self.verifying_keys.as_slice()
    }
}

/// The name of an executable, as it is set, needs no further change: setting it once more
/// gives the same name.
pub proof fn executable_name_is_stable(name: Seq<char>, suffix: Seq<char>)
    ensures
        executable_name(executable_name(name, suffix), suffix) == executable_name(name, suffix),
{
    let bare = trimmed_end(name, suffix);
    lemma_trimmed_end(name, suffix);
    let full = bare + suffix;
    if suffix.len() > 0 {
        assert(full.subrange(full.len() - suffix.len(), full.len() as int) =~= suffix);
        assert(full.take(full.len() - suffix.len()) =~= bare);
        assert(trimmed_end(bare, suffix) == bare);
    }
}

/// What is left of a text without its ends does not end so again.
proof fn lemma_trimmed_end(text: Seq<char>, tail: Seq<char>)
    ensures
        tail.len() > 0 ==> !occurs_at(
            trimmed_end(text, tail),
            tail,
            trimmed_end(text, tail).len() - tail.len(),
        ),
    decreases text.len(),
{
    if tail.len() > 0 && occurs_at(text, tail, text.len() - tail.len()) {
        lemma_trimmed_end(text.take(text.len() - tail.len()), tail);
    }
}

/// The path of the executable in the archive defaults to its name, and one that was set
/// before stays.
pub proof fn archive_path_defaults_to_name(
    builder: UpdateBuilderView,
    name: Seq<char>,
    exe_suffix: Seq<char>,
)
    ensures
        builder.with_bin_name(name, exe_suffix).knows_archive_path(),
        builder.bin_path_in_archive is None ==> builder.with_bin_name(
            name,
            exe_suffix,
        ).bin_path_in_archive == builder.with_bin_name(name, exe_suffix).bin_name,
        builder.bin_path_in_archive is Some ==> builder.with_bin_name(
            name,
            exe_suffix,
        ).bin_path_in_archive == builder.bin_path_in_archive,
{
}

/// A builder is never refused for want of the path in the archive alone.
pub proof fn archive_path_is_never_asked_for(
    builder: UpdateBuilderView,
    missing_exe: Option<Seq<char>>,
)
    requires
        builder.knows_archive_path(),
    ensures
        builder.refusal(missing_exe) is None <==> {
            &&& builder.bin_install_path is Some || missing_exe is None
            &&& builder.bucket_name is Some
            &&& builder.bin_name is Some
            &&& builder.current_version is Some
        },
{
}

/// The release of a version has exactly that version and stands in the list, and none with
/// that version stands before it.
pub proof fn found_release_has_the_version(
    releases: Seq<ReleaseView>,
    version: Seq<char>,
    release: ReleaseView,
)
    requires
        is_first_of_version(releases, version, release),
    ensures
        release.version == version,
        releases.contains(release),
        exists|i: int|
            0 <= i < releases.len() && #[trigger] releases[i] == release && (forall|k: int|
                0 <= k < i ==> (#[trigger] releases[k]).version != version),
{
}

/// A version is in the list exactly if it is the whole version of one of its releases, and
/// then there is a first one.
pub proof fn version_is_listed_as_a_whole(releases: Seq<ReleaseView>, version: Seq<char>)
    ensures
        has_version(releases, version) <==> exists|i: int|
            0 <= i < releases.len() && (#[trigger] releases[i]).version == version,
        has_version(releases, version) <==> exists|release: ReleaseView|
            is_first_of_version(releases, version, release),
    decreases releases.len(),
{
    if has_version(releases, version) {
        let i = choose|i: int|
            0 <= i < releases.len() && (#[trigger] releases[i]).version == version;
        lemma_first_of_version(releases, version, i);
    }
    if exists|release: ReleaseView| is_first_of_version(releases, version, release) {
        let release = choose|release: ReleaseView|
            is_first_of_version(releases, version, release);
        found_release_has_the_version(releases, version, release);
        let i = choose|i: int| 0 <= i < releases.len() && #[trigger] releases[i] == release;
        assert(releases[i].version == version);
    }
}

/// Where a release has the version, there is a first one.
proof fn lemma_first_of_version(releases: Seq<ReleaseView>, version: Seq<char>, at: int)
    requires
        0 <= at < releases.len(),
        releases[at].version == version,
    ensures
        exists|release: ReleaseView| is_first_of_version(releases, version, release),
    decreases at,
{
    if exists|k: int| 0 <= k < at && (#[trigger] releases[k]).version == version {
        let k = choose|k: int| 0 <= k < at && (#[trigger] releases[k]).version == version;
        lemma_first_of_version(releases, version, k);
    } else {
        assert(is_first_of_version(releases, version, releases[at]));
    }
}

/// The name of an executable ends with the suffix, once: a name without it gets it, and one
/// with it is named as without it.
pub proof fn executable_name_ends_with_one_suffix(name: Seq<char>, suffix: Seq<char>)
    ensures
        executable_name(name + suffix, suffix) == executable_name(name, suffix),
        name.len() < suffix.len() || name.skip(name.len() - suffix.len()) != suffix
            ==> executable_name(name, suffix) == name + suffix,
        suffix.len() == 0 ==> executable_name(name, suffix) == name,
{
    end_is_trimmed(name, suffix);
    if suffix.len() == 0 {
        assert(name + suffix =~= name);
    }
}

/// Setting the name of the executable sets it, and the path in the archive where none was
/// set, and nothing else.
pub proof fn bin_name_sets_name_and_path(
    builder: UpdateBuilderView,
    name: Seq<char>,
    suffix: Seq<char>,
)
    requires
        name.len() < suffix.len() || suffix.len() == 0 || name.skip(name.len() - suffix.len())
            != suffix,
    ensures
        builder.with_bin_name(name, suffix) == (UpdateBuilderView {
            bin_name: Some(name + suffix),
            bin_path_in_archive: if builder.bin_path_in_archive is Some {
                builder.bin_path_in_archive
            } else {
                Some(name + suffix)
            },
            ..builder
        }),
        builder.with_bin_name(name + suffix, suffix) == builder.with_bin_name(name, suffix),
{
    executable_name_ends_with_one_suffix(name, suffix);
    if suffix.len() == 0 {
        assert(name + suffix =~= name);
    }
}

/// Nothing is set at first but the end point S3, output that is shown, and the layout of the
/// progress; nothing is confirmed in advance, and no progress is shown.
pub proof fn defaults_are_as_documented()
    ensures
        default_builder().end_point is S3,
        default_builder().bucket_name is None,
        default_builder().asset_prefix is None,
        default_builder().target is None,
        default_builder().region is None,
        default_builder().bin_name is None,
        default_builder().bin_install_path is None,
        default_builder().bin_path_in_archive is None,
        !default_builder().show_download_progress,
        default_builder().show_output,
        !default_builder().no_confirm,
        default_builder().current_version is None,
        default_builder().target_version is None,
        default_builder().auth_token is None,
        default_builder().verifying_keys.len() == 0,
        default_builder().progress_template
            == "[{elapsed_precise}] [{bar:40}] {bytes}/{total_bytes} ({eta}) {msg}"@,
        default_builder().progress_chars == "=>-"@,
{
}

/// The first setting that is missing is the one that is complained of: the path of the
/// executable, the bucket, the name of the executable, its path in the archive, the
/// current version. Nothing else is needed.
pub proof fn first_missing_setting_is_named(
    builder: UpdateBuilderView,
    current_exe: Result<std::path::PathBuf, String>,
)
    ensures
        current_exe matches Err(account) ==> (builder.bin_install_path is None ==> builder.refusal(
            missing(current_exe),
        ) == Some(ErrorView::Io(account@))),
        builder.bin_install_path is Some || current_exe is Ok ==> {
            let refusal = builder.refusal(missing(current_exe));
            &&& builder.bucket_name is None ==> refusal == Some(
                ErrorView::Config("`bucket_name` required"@),
            )
            &&& builder.bucket_name is Some ==> {
                &&& builder.bin_name is None ==> refusal == Some(
                    ErrorView::Config("`bin_name` required"@),
                )
                &&& builder.bin_name is Some && builder.bin_path_in_archive is None ==> refusal
                    == Some(ErrorView::Config("`bin_path_in_archive` required"@))
                &&& builder.bin_name is Some && builder.bin_path_in_archive is Some ==> (
                builder.current_version is None ==> refusal == Some(
                    ErrorView::Config("`current_version` required"@),
                )) && (builder.current_version is Some ==> refusal is None)
            }
        },
{
}

/// What is built is set as the builder is. The target that the program was built for and
/// the path of the running executable stand in only where nothing was set.
pub proof fn update_is_set_as_its_builder(
    builder: UpdateBuilderView,
    current_exe: std::path::PathBuf,
    build_target: Seq<char>,
)
    ensures
        ({
            let built = builder.built(current_exe, build_target);
            &&& built.end_point == builder.end_point
            &&& builder.bucket_name matches Some(name) ==> built.bucket_name == name
            &&& built.asset_prefix == builder.asset_prefix
            &&& builder.target matches Some(target) ==> built.target == target
            &&& builder.target is None ==> built.target == build_target
            &&& built.region == builder.region
            &&& builder.current_version matches Some(version) ==> built.current_version == version
            &&& built.target_version == builder.target_version
            &&& builder.bin_name matches Some(name) ==> built.bin_name == name
            &&& builder.bin_install_path matches Some(path) ==> built.bin_install_path == path
            &&& builder.bin_install_path is None ==> built.bin_install_path == current_exe
            &&& builder.bin_path_in_archive matches Some(path) ==> built.bin_path_in_archive
                == path
            &&& built.show_download_progress == builder.show_download_progress
            &&& built.show_output == builder.show_output
            &&& built.no_confirm == builder.no_confirm
            &&& built.progress_template == builder.progress_template
            &&& built.progress_chars == builder.progress_chars
            &&& built.auth_token == builder.auth_token
            &&& built.verifying_keys == builder.verifying_keys
        }),
{
}

} // verus!
