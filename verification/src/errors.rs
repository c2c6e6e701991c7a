//! The errors of the library.

use vstd::prelude::*;

verus! {

/// Why an operation failed.
#[derive(Debug)]
pub enum UpdateError {
    /// The configuration lacks something.
    Config(String),
    /// The storage service could not be asked.
    Network(String),
    /// No fitting release.
    Release(String),
    /// The machine did not answer.
    Io(String),
    /// A text is no semantic version.
    SemVer(semver::Error),
}

/// What an [`UpdateError`] says.
pub enum ErrorView {
    Config(Seq<char>),
    Network(Seq<char>),
    Release(Seq<char>),
    Io(Seq<char>),
    SemVer,
}

impl View for UpdateError {
    type V = ErrorView;

    open spec fn view(&self) -> ErrorView {
        match self {
            UpdateError::Config(message) => ErrorView::Config(message@),
            UpdateError::Network(message) => ErrorView::Network(message@),
            UpdateError::Release(message) => ErrorView::Release(message@),
            UpdateError::Io(message) => ErrorView::Io(message@),
            UpdateError::SemVer(_) => ErrorView::SemVer,
        }
    }
}

/// The configuration error with the given message.
pub fn config_error(message: &str) -> (error: UpdateError)
    ensures
        error@ == ErrorView::Config(message@),
{
    UpdateError::Config(message.to_owned())
}

/// The error for an asynchronous runtime that did not start; `detail` is its own
/// account.
pub fn runtime_error(detail: &str) -> (error: UpdateError)
    ensures
        error@ == ErrorView::Network("Failed to create async runtime: "@ + detail@),
{
    UpdateError::Network("Failed to create async runtime: ".to_owned().concat(detail))
}

/// The error for a listing request that failed; `detail` is the service's own account.
pub fn list_error(detail: &str) -> (error: UpdateError)
    ensures
        error@ == ErrorView::Network("Failed to list S3 objects: "@ + detail@),
{
    UpdateError::Network("Failed to list S3 objects: ".to_owned().concat(detail))
}

/// An error shows its kind and its message.
pub proof fn errors_show_their_message(error: UpdateError)
    ensures
        error matches UpdateError::Config(message) ==> error@ == ErrorView::Config(message@),
        error matches UpdateError::Network(message) ==> error@ == ErrorView::Network(message@),
        error matches UpdateError::Release(message) ==> error@ == ErrorView::Release(message@),
        error matches UpdateError::Io(message) ==> error@ == ErrorView::Io(message@),
        error is SemVer ==> error@ is SemVer,
{
}

} // verus!
