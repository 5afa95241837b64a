use cloradar_tracker::error::TrackError;
use cloradar_tracker::report::{aggregate, duplicate_failures, RunError, UnitFailure};

fn failure(url: &str, cause: TrackError) -> UnitFailure {
    UnitFailure { url: url.to_string(), cause }
}

#[test]
fn each_error_kind_has_its_text() {
    assert_eq!(
        TrackError::CredentialsMissing.message(),
        "GitHub tokens not found in config file (creds.githubTokens)"
    );
    assert_eq!(TrackError::FetchFailed("403 forbidden".to_string()).message(), "403 forbidden");
    assert_eq!(TrackError::Timeout.message(), "deadline has elapsed");
    assert_eq!(
        TrackError::SerializationFailed.message(),
        "repository fields could not be serialized"
    );
    assert_eq!(
        TrackError::DatastoreWriteFailed("connection reset".to_string()).message(),
        "connection reset"
    );
}

#[test]
fn an_error_and_its_duplicate_are_equal() {
    let errors = vec![
        TrackError::CredentialsMissing,
        TrackError::FetchFailed("a".to_string()),
        TrackError::Timeout,
        TrackError::SerializationFailed,
        TrackError::DatastoreWriteFailed("b".to_string()),
    ];
    for error in &errors {
        assert_eq!(&error.duplicate(), error);
    }
}

#[test]
fn a_failure_is_one_line_with_url_and_cause() {
    let failed = failure("https://github.com/a/b", TrackError::FetchFailed("not found".to_string()));
    assert_eq!(failed.line(), "error tracking repository https://github.com/a/b: not found");
    assert_eq!(failed.duplicate(), failed);
}

#[test]
fn no_failure_is_success() {
    assert_eq!(aggregate(Vec::new()), Ok(()));
}

#[test]
fn one_failure_fails_the_run() {
    let failures = vec![failure("u1", TrackError::Timeout)];
    assert_eq!(
        aggregate(duplicate_failures(&failures)),
        Err(RunError::UnitsFailed(vec![failure("u1", TrackError::Timeout)]))
    );
}

#[test]
fn the_message_of_one_failure_is_its_line() {
    let error = RunError::UnitsFailed(vec![failure("u1", TrackError::Timeout)]);
    assert_eq!(error.message(), "error tracking repository u1: deadline has elapsed");
}

#[test]
fn the_message_of_several_failures_has_one_line_each() {
    let error = RunError::UnitsFailed(vec![
        failure("u1", TrackError::Timeout),
        failure("u2", TrackError::FetchFailed("bad credentials".to_string())),
        failure("u3", TrackError::DatastoreWriteFailed("deadlock".to_string())),
    ]);
    assert_eq!(
        error.message(),
        "error tracking repository u1: deadline has elapsed\n\
         error tracking repository u2: bad credentials\n\
         error tracking repository u3: deadlock"
    );
}

#[test]
fn the_message_of_no_failures_is_empty() {
    assert_eq!(RunError::UnitsFailed(Vec::new()).message(), "");
}

#[test]
fn the_message_of_a_due_list_failure_is_its_cause() {
    assert_eq!(RunError::DueListFailed("pool timed out".to_string()).message(), "pool timed out");
}
