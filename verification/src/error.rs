//! What can go wrong in a tracking run.

use vstd::prelude::*;
use vstd::string::StringExecFns;

verus! {

/// Why a run could not start, or why one unit of work failed.
#[derive(Debug, PartialEq)]
pub enum TrackError {
    /// The configured set of credentials is empty.
    CredentialsMissing,
    /// The remote API could not deliver the repository; the text is the
    /// cause as the API client gave it.
    FetchFailed(String),
    /// The unit did not complete within its deadline.
    Timeout,
    /// The repository's tracked fields could not be encoded.
    SerializationFailed,
    /// A datastore call of the unit failed; the text is the cause as the
    /// datastore gave it.
    DatastoreWriteFailed(String),
}

/// The text of each error kind that carries none of its own.
pub open spec fn credentials_missing_text() -> Seq<char> {
    "GitHub tokens not found in config file (creds.githubTokens)"@
}

pub open spec fn timeout_text() -> Seq<char> {
    "deadline has elapsed"@
}

pub open spec fn serialization_failed_text() -> Seq<char> {
    "repository fields could not be serialized"@
}

impl View for TrackError {
    type V = TrackErrorView;

    open spec fn view(&self) -> TrackErrorView {
        match self {
            TrackError::CredentialsMissing => TrackErrorView::CredentialsMissing,
            TrackError::FetchFailed(cause) => TrackErrorView::FetchFailed(cause@),
            TrackError::Timeout => TrackErrorView::Timeout,
            TrackError::SerializationFailed => TrackErrorView::SerializationFailed,
            TrackError::DatastoreWriteFailed(cause) => TrackErrorView::DatastoreWriteFailed(
                cause@,
            ),
        }
    }
}

/// A [`TrackError`] with its texts as sequences of characters.
pub enum TrackErrorView {
    CredentialsMissing,
    FetchFailed(Seq<char>),
    Timeout,
    SerializationFailed,
    DatastoreWriteFailed(Seq<char>),
}

impl TrackErrorView {
    /// The cause in words.
    pub open spec fn message(self) -> Seq<char> {
        match self {
            TrackErrorView::CredentialsMissing => credentials_missing_text(),
            TrackErrorView::FetchFailed(cause) => cause,
            TrackErrorView::Timeout => timeout_text(),
            TrackErrorView::SerializationFailed => serialization_failed_text(),
            TrackErrorView::DatastoreWriteFailed(cause) => cause,
        }
    }
}

impl TrackError {
    /// The cause in words.
    pub fn message(&self) -> (text: String)
        ensures
            text@ == self@.message(),
    {
        match self {
            TrackError::CredentialsMissing => String::from_str(
                "GitHub tokens not found in config file (creds.githubTokens)",
            ),
            TrackError::FetchFailed(cause) => cause.clone(),
            TrackError::Timeout => String::from_str("deadline has elapsed"),
            TrackError::SerializationFailed => String::from_str(
                "repository fields could not be serialized",
            ),
            TrackError::DatastoreWriteFailed(cause) => cause.clone(),
        }
    }

    /// A copy of the error.
    pub fn duplicate(&self) -> (copy: TrackError)
        ensures
            copy@ == self@,
    {
        match self {
            TrackError::CredentialsMissing => TrackError::CredentialsMissing,
            TrackError::FetchFailed(cause) => TrackError::FetchFailed(cause.clone()),
            TrackError::Timeout => TrackError::Timeout,
            TrackError::SerializationFailed => TrackError::SerializationFailed,
            TrackError::DatastoreWriteFailed(cause) => TrackError::DatastoreWriteFailed(
                cause.clone(),
            ),
        }
    }
}

} // verus!
