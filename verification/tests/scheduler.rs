use cloradar_tracker::error::TrackError;
use cloradar_tracker::model::Repository;
use cloradar_tracker::report::{RunError, UnitFailure};
use cloradar_tracker::scheduler::{
    RunAction, RunEvent, RunPhase, Scheduler, UnitOutcome, REPOSITORY_TRACK_TIMEOUT,
};
use uuid::Uuid;

fn credentials(names: &[&str]) -> Vec<String> {
    names.iter().map(|name| name.to_string()).collect()
}

fn repository(n: u128) -> Repository {
    Repository {
        repository_id: Uuid::from_u128(n),
        url: format!("https://github.com/org/repo{}", n),
        topics: None,
        languages: None,
        stars: Some(n as i32),
        digest: None,
    }
}

fn due(count: u128) -> Vec<Repository> {
    (0..count).map(repository).collect()
}

fn start(unit: usize, credential: &str) -> RunAction {
    RunAction::StartUnit {
        unit,
        repository: repository(unit as u128),
        credential: credential.to_string(),
        timeout_secs: REPOSITORY_TRACK_TIMEOUT,
    }
}

fn check(credential: &str) -> RunAction {
    RunAction::CheckRateLimit { credential: credential.to_string() }
}

fn succeeded(unit: usize) -> RunEvent {
    RunEvent::UnitFinished { unit, outcome: UnitOutcome::Completed(Ok(())) }
}

fn failed(unit: usize, cause: TrackError) -> RunEvent {
    RunEvent::UnitFinished { unit, outcome: UnitOutcome::Completed(Err(cause)) }
}

fn timed_out(unit: usize) -> RunEvent {
    RunEvent::UnitFinished { unit, outcome: UnitOutcome::DeadlineElapsed }
}

fn failure(unit: u128, cause: TrackError) -> UnitFailure {
    UnitFailure { url: format!("https://github.com/org/repo{}", unit), cause }
}

fn scheduler(names: &[&str], concurrency: usize) -> Scheduler {
    Scheduler::new(credentials(names), concurrency, REPOSITORY_TRACK_TIMEOUT).unwrap()
}

fn begun(names: &[&str], concurrency: usize, count: u128) -> (Scheduler, Vec<RunAction>) {
    let mut run = scheduler(names, concurrency);
    run.step(RunEvent::Started);
    let actions = run.step(RunEvent::DueList(Ok(due(count))));
    (run, actions)
}

#[test]
fn the_default_deadline_is_300_seconds() {
    assert_eq!(REPOSITORY_TRACK_TIMEOUT, 300);
}

#[test]
fn no_credentials_end_the_run_before_it_starts() {
    match Scheduler::new(Vec::new(), 4, 300) {
        Err(error) => assert_eq!(error, TrackError::CredentialsMissing),
        Ok(_) => panic!("a scheduler without credentials"),
    }
}

#[test]
fn a_new_scheduler_is_idle() {
    let run = Scheduler::new(credentials(&["t1", "t2"]), 3, 120).unwrap();
    assert_eq!(run.phase(), RunPhase::Idle);
    assert_eq!(run.in_flight(), 0);
    assert_eq!(run.started(), 0);
    assert_eq!(run.concurrency(), 3);
    assert_eq!(run.timeout_secs(), 120);
}

#[test]
fn the_run_begins_by_asking_for_the_due_list() {
    let mut run = scheduler(&["t1"], 2);
    assert_eq!(run.step(RunEvent::Started), vec![RunAction::LoadDueList]);
    assert_eq!(run.phase(), RunPhase::FetchingDueList);
}

#[test]
fn an_empty_due_list_ends_the_run_well_without_dispatch() {
    let mut run = scheduler(&["t1"], 2);
    run.step(RunEvent::Started);
    assert_eq!(run.step(RunEvent::DueList(Ok(Vec::new()))), vec![RunAction::Finish(Ok(()))]);
    assert_eq!(run.phase(), RunPhase::Done);
    assert_eq!(run.started(), 0);
}

#[test]
fn a_due_list_that_cannot_be_had_ends_the_run() {
    let mut run = scheduler(&["t1"], 2);
    run.step(RunEvent::Started);
    assert_eq!(
        run.step(RunEvent::DueList(Err("connection refused".to_string()))),
        vec![RunAction::Finish(Err(RunError::DueListFailed("connection refused".to_string())))]
    );
    assert_eq!(run.phase(), RunPhase::Done);
}

#[test]
fn units_are_started_up_to_the_concurrency_limit() {
    let (run, actions) = begun(&["t1", "t2", "t3"], 2, 5);
    assert_eq!(actions, vec![start(0, "t3"), start(1, "t2")]);
    assert_eq!(run.phase(), RunPhase::Dispatching);
    assert_eq!(run.in_flight(), 2);
    assert_eq!(run.started(), 2);
}

#[test]
fn units_are_started_only_while_credentials_are_at_rest() {
    let (run, actions) = begun(&["t1", "t2"], 8, 5);
    assert_eq!(actions, vec![start(0, "t2"), start(1, "t1")]);
    assert_eq!(run.in_flight(), 2);
    assert_eq!(run.phase(), RunPhase::Dispatching);
}

#[test]
fn a_short_due_list_is_drained_at_once() {
    let (run, actions) = begun(&["t1", "t2", "t3"], 4, 2);
    assert_eq!(actions, vec![start(0, "t3"), start(1, "t2")]);
    assert_eq!(run.phase(), RunPhase::Draining);
}

#[test]
fn each_unit_carries_the_configured_deadline() {
    let mut run = Scheduler::new(credentials(&["t1"]), 1, 45).unwrap();
    run.step(RunEvent::Started);
    assert_eq!(
        run.step(RunEvent::DueList(Ok(due(1)))),
        vec![RunAction::StartUnit {
            unit: 0,
            repository: repository(0),
            credential: "t1".to_string(),
            timeout_secs: 45,
        }]
    );
}

#[test]
fn a_finished_unit_frees_its_credential_for_the_next() {
    let (mut run, _) = begun(&["t1", "t2", "t3"], 2, 4);
    assert_eq!(run.step(succeeded(1)), vec![start(2, "t2")]);
    assert_eq!(run.in_flight(), 2);
    assert_eq!(run.step(succeeded(0)), vec![start(3, "t3")]);
    assert_eq!(run.phase(), RunPhase::Draining);
    assert_eq!(run.step(succeeded(3)), Vec::new());
    assert_eq!(run.in_flight(), 1);
    assert_eq!(run.step(succeeded(2)), vec![check("t1"), check("t2"), check("t3")]);
    assert_eq!(run.phase(), RunPhase::Reporting);
    assert_eq!(run.step(RunEvent::QuotaReported), vec![RunAction::Finish(Ok(()))]);
    assert_eq!(run.phase(), RunPhase::Done);
}

#[test]
fn never_more_units_in_flight_than_the_limit() {
    let limit = 3;
    let (mut run, first) = begun(&["t1", "t2", "t3", "t4", "t5"], limit, 10);
    let mut in_flight: Vec<usize> = Vec::new();
    let mut held: Vec<String> = Vec::new();
    let mut pending = first;
    let mut ended = 0;
    loop {
        for action in pending {
            if let RunAction::StartUnit { unit, credential, .. } = action {
                assert!(!held.contains(&credential));
                held.push(credential);
                in_flight.push(unit);
            }
        }
        assert!(in_flight.len() <= limit);
        assert_eq!(run.in_flight(), in_flight.len());
        if in_flight.is_empty() {
            break;
        }
        let place = (ended * 7) % in_flight.len();
        let unit = in_flight.remove(place);
        held.remove(place);
        ended += 1;
        pending = run.step(succeeded(unit));
    }
    assert_eq!(ended, 10);
    assert_eq!(run.started(), 10);
    assert_eq!(run.phase(), RunPhase::Reporting);
}

#[test]
fn a_failed_unit_does_not_stop_the_others() {
    let (mut run, _) = begun(&["t1", "t2"], 2, 3);
    let next = run.step(failed(0, TrackError::FetchFailed("not found".to_string())));
    assert_eq!(next, vec![start(2, "t2")]);
    assert_eq!(run.in_flight(), 2);
    assert_eq!(run.step(succeeded(1)), Vec::new());
    assert_eq!(run.step(succeeded(2)), vec![check("t1"), check("t2")]);
    assert_eq!(
        run.step(RunEvent::QuotaReported),
        vec![RunAction::Finish(Err(RunError::UnitsFailed(vec![failure(
            0,
            TrackError::FetchFailed("not found".to_string())
        )])))]
    );
}

#[test]
fn the_combined_error_names_the_failed_repository_and_no_other() {
    let (mut run, _) = begun(&["t1", "t2"], 2, 2);
    run.step(failed(0, TrackError::FetchFailed("simulated fetch error".to_string())));
    run.step(succeeded(1));
    let last = run.step(RunEvent::QuotaReported);
    match &last[0] {
        RunAction::Finish(Err(error)) => {
            let message = error.message();
            assert_eq!(
                message,
                "error tracking repository https://github.com/org/repo0: simulated fetch error"
            );
            assert!(message.contains("https://github.com/org/repo0"));
            assert!(!message.contains("https://github.com/org/repo1"));
        }
        _ => panic!("the run did not fail"),
    }
}

#[test]
fn a_unit_whose_deadline_passed_counts_as_failed_with_a_timeout() {
    let (mut run, _) = begun(&["t1"], 1, 2);
    assert_eq!(run.step(timed_out(0)), vec![start(1, "t1")]);
    assert_eq!(run.step(succeeded(1)), vec![check("t1")]);
    let last = run.step(RunEvent::QuotaReported);
    assert_eq!(
        last,
        vec![RunAction::Finish(Err(RunError::UnitsFailed(vec![failure(0, TrackError::Timeout)])))]
    );
    match &last[0] {
        RunAction::Finish(Err(error)) => assert_eq!(
            error.message(),
            "error tracking repository https://github.com/org/repo0: deadline has elapsed"
        ),
        _ => panic!("the run did not fail"),
    }
}

#[test]
fn every_failure_is_listed_in_the_order_of_the_units_end() {
    let (mut run, _) = begun(&["t1", "t2", "t3"], 3, 3);
    run.step(failed(2, TrackError::DatastoreWriteFailed("disk full".to_string())));
    run.step(timed_out(0));
    run.step(failed(1, TrackError::SerializationFailed));
    let last = run.step(RunEvent::QuotaReported);
    let expected = RunError::UnitsFailed(vec![
        failure(2, TrackError::DatastoreWriteFailed("disk full".to_string())),
        failure(0, TrackError::Timeout),
        failure(1, TrackError::SerializationFailed),
    ]);
    assert_eq!(
        expected.message(),
        "error tracking repository https://github.com/org/repo2: disk full\n\
         error tracking repository https://github.com/org/repo0: deadline has elapsed\n\
         error tracking repository https://github.com/org/repo1: repository fields could not be serialized"
    );
    assert_eq!(last, vec![RunAction::Finish(Err(expected))]);
}

#[test]
fn the_quota_is_reported_for_every_credential_after_failures_too() {
    let (mut run, _) = begun(&["t1", "t2", "t3"], 1, 1);
    assert_eq!(
        run.step(failed(0, TrackError::FetchFailed("boom".to_string()))),
        vec![check("t1"), check("t2"), check("t3")]
    );
    assert_eq!(run.phase(), RunPhase::Reporting);
}

#[test]
fn an_event_out_of_turn_changes_nothing() {
    let mut run = scheduler(&["t1"], 1);
    assert_eq!(run.step(RunEvent::QuotaReported), Vec::new());
    assert_eq!(run.step(RunEvent::DueList(Ok(due(2)))), Vec::new());
    assert_eq!(run.step(succeeded(0)), Vec::new());
    assert_eq!(run.phase(), RunPhase::Idle);
    run.step(RunEvent::Started);
    assert_eq!(run.step(RunEvent::Started), Vec::new());
    run.step(RunEvent::DueList(Ok(due(2))));
    assert_eq!(run.step(RunEvent::DueList(Ok(due(3)))), Vec::new());
    assert_eq!(run.step(RunEvent::QuotaReported), Vec::new());
    assert_eq!(run.started(), 1);
    assert_eq!(run.in_flight(), 1);
}

#[test]
fn the_end_of_a_unit_that_is_not_in_flight_changes_nothing() {
    let (mut run, _) = begun(&["t1", "t2"], 1, 3);
    assert_eq!(run.step(succeeded(1)), Vec::new());
    assert_eq!(run.step(succeeded(7)), Vec::new());
    assert_eq!(run.in_flight(), 1);
    assert_eq!(run.step(succeeded(0)), vec![start(1, "t2")]);
    assert_eq!(run.step(succeeded(0)), Vec::new());
    assert_eq!(run.in_flight(), 1);
}

#[test]
fn nothing_happens_after_the_run_is_done() {
    let (mut run, _) = begun(&["t1"], 1, 1);
    run.step(succeeded(0));
    run.step(RunEvent::QuotaReported);
    assert_eq!(run.phase(), RunPhase::Done);
    assert_eq!(run.step(RunEvent::Started), Vec::new());
    assert_eq!(run.step(RunEvent::QuotaReported), Vec::new());
    assert_eq!(run.step(succeeded(0)), Vec::new());
    assert_eq!(run.phase(), RunPhase::Done);
}

#[test]
fn outcomes_are_told_apart() {
    assert_eq!(UnitOutcome::Completed(Ok(())).failure(), None);
    assert_eq!(
        UnitOutcome::Completed(Err(TrackError::FetchFailed("x".to_string()))).failure(),
        Some(TrackError::FetchFailed("x".to_string()))
    );
    assert_eq!(UnitOutcome::DeadlineElapsed.failure(), Some(TrackError::Timeout));
}
