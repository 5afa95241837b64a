//! The tracking scheduler.
//!
//! One run goes from idle through fetching the list of due repositories,
//! dispatching and draining the units of work, and reporting, to done.  The
//! scheduler decides; its caller performs each action and hands the outcome
//! back as the next event.  A unit of work runs only while it holds a
//! credential, and never more units run than the concurrency limit allows.

use crate::error::{TrackError, TrackErrorView};
use crate::model::{duplicate_texts, Repository, RepositoryView};
use crate::pool::CredentialPool;
use crate::report::{
    aggregate, duplicate_failures, verdict_of, verdict_view, RunError, RunErrorView, UnitFailure,
    UnitFailureView,
};
use vstd::prelude::*;
use vstd::seq_lib::{to_multiset_build, to_multiset_contains, to_multiset_remove};

verus! {

/// The longest that tracking a single repository may take, in seconds,
/// unless the configuration says otherwise.
pub const REPOSITORY_TRACK_TIMEOUT: u64 = 300;

/// Where a run stands.
#[derive(Clone, Copy, Debug, PartialEq, Eq, Structural)]
pub enum RunPhase {
    Idle,
    FetchingDueList,
    Dispatching,
    Draining,
    Reporting,
    Done,
}

/// How a unit of work ended.
#[derive(Debug, PartialEq)]
pub enum UnitOutcome {
    /// The unit ran to its end, well or not.
    Completed(Result<(), TrackError>),
    /// The unit's deadline passed before it ended; it was abandoned.
    DeadlineElapsed,
}

/// A [`UnitOutcome`] with its texts as sequences of characters.
pub enum UnitOutcomeView {
    Completed(Result<(), TrackErrorView>),
    DeadlineElapsed,
}

impl View for UnitOutcome {
    type V = UnitOutcomeView;

    open spec fn view(&self) -> UnitOutcomeView {
        match self {
            UnitOutcome::Completed(Ok(())) => UnitOutcomeView::Completed(Ok(())),
            UnitOutcome::Completed(Err(cause)) => UnitOutcomeView::Completed(Err(cause@)),
            UnitOutcome::DeadlineElapsed => UnitOutcomeView::DeadlineElapsed,
        }
    }
}

impl UnitOutcomeView {
    /// The cause for which the unit counts as failed, if it does: its own
    /// error, or a timeout where its deadline passed.
    pub open spec fn failure(self) -> Option<TrackErrorView> {
        match self {
            UnitOutcomeView::Completed(Ok(())) => None,
            UnitOutcomeView::Completed(Err(cause)) => Some(cause),
            UnitOutcomeView::DeadlineElapsed => Some(TrackErrorView::Timeout),
        }
    }
}

impl UnitOutcome {
    /// The cause for which the unit counts as failed, if it does.
    pub fn failure(self) -> (cause: Option<TrackError>)
        ensures
            cause.is_some() == self@.failure().is_some(),
            cause matches Some(cause) ==> self@.failure() == Some(cause@),
    {
        match self {
            UnitOutcome::Completed(Ok(())) => None,
            UnitOutcome::Completed(Err(cause)) => Some(cause),
            UnitOutcome::DeadlineElapsed => Some(TrackError::Timeout),
        }
    }
}

/// What the caller reports to the scheduler.
#[derive(Debug, PartialEq)]
pub enum RunEvent {
    /// The run is to begin.
    Started,
    /// The datastore answered the request for the due repositories.
    DueList(Result<Vec<Repository>, String>),
    /// The unit with this number ended.
    UnitFinished { unit: usize, outcome: UnitOutcome },
    /// The rate limit of every credential has been looked up, well or not.
    QuotaReported,
}

/// A [`RunEvent`] with its texts as sequences of characters.
pub enum RunEventView {
    Started,
    DueList(Result<Seq<RepositoryView>, Seq<char>>),
    UnitFinished { unit: usize, outcome: UnitOutcomeView },
    QuotaReported,
}

impl View for RunEvent {
    type V = RunEventView;

    open spec fn view(&self) -> RunEventView {
        match self {
            RunEvent::Started => RunEventView::Started,
            RunEvent::DueList(Ok(due)) => RunEventView::DueList(Ok(due.deep_view())),
            RunEvent::DueList(Err(cause)) => RunEventView::DueList(Err(cause@)),
            RunEvent::UnitFinished { unit, outcome } => RunEventView::UnitFinished {
                unit: *unit,
                outcome: outcome@,
            },
            RunEvent::QuotaReported => RunEventView::QuotaReported,
        }
    }
}

/// What the scheduler asks of its caller.
#[derive(Debug, PartialEq)]
pub enum RunAction {
    /// Ask the datastore for the repositories that are due.
    LoadDueList,
    /// Run the synchronisation of one repository with the given credential,
    /// and give it up when the deadline has passed.
    StartUnit { unit: usize, repository: Repository, credential: String, timeout_secs: u64 },
    /// Look up and log the rate limit that is left for a credential.
    CheckRateLimit { credential: String },
    /// The run is over, with this verdict.
    Finish(Result<(), RunError>),
}

/// A [`RunAction`] with its texts as sequences of characters.
pub enum RunActionView {
    LoadDueList,
    StartUnit { unit: usize, repository: RepositoryView, credential: Seq<char>, timeout_secs: u64 },
    CheckRateLimit { credential: Seq<char> },
    Finish(Result<(), RunErrorView>),
}

impl View for RunAction {
    type V = RunActionView;

    open spec fn view(&self) -> RunActionView {
        match self {
            RunAction::LoadDueList => RunActionView::LoadDueList,
            RunAction::StartUnit { unit, repository, credential, timeout_secs } => {
                RunActionView::StartUnit {
                    unit: *unit,
                    repository: repository@,
                    credential: credential@,
                    timeout_secs: *timeout_secs,
                }
            },
            RunAction::CheckRateLimit { credential } => RunActionView::CheckRateLimit {
                credential: credential@,
            },
            RunAction::Finish(verdict) => RunActionView::Finish(verdict_view(*verdict)),
        }
    }
}

impl DeepView for RunAction {
    type V = RunActionView;

    open spec fn deep_view(&self) -> RunActionView {
        self@
    }
}

/// A unit of work in flight and the credential it holds.
pub struct Running {
    unit: usize,
    credential: String,
}

/// A [`Running`] with its credential as a sequence of characters.
pub struct RunningView {
    pub unit: usize,
    pub credential: Seq<char>,
}

impl View for Running {
    type V = RunningView;

    closed spec fn view(&self) -> RunningView {
        RunningView { unit: self.unit, credential: self.credential@ }
    }
}

impl DeepView for Running {
    type V = RunningView;

    closed spec fn deep_view(&self) -> RunningView {
        self@
    }
}

/// The place of a unit among those in flight, if it is there.
pub open spec fn position_of(running: Seq<RunningView>, unit: usize) -> Option<int>
    decreases running.len(),
{
    if running.len() == 0 {
        None
    } else if running[0].unit == unit {
        Some(0)
    } else {
        match position_of(running.drop_first(), unit) {
            None => None,
            Some(i) => Some(i + 1),
        }
    }
}

/// One request to look up the rate limit for each credential, in order.
pub open spec fn quota_actions(credentials: Seq<Seq<char>>) -> Seq<RunActionView> {
    Seq::new(credentials.len(), |i: int| RunActionView::CheckRateLimit { credential: credentials[i] })
}

/// The state of a run.
pub struct SchedulerView {
    pub phase: RunPhase,
    /// The configured credentials.
    pub credentials: Seq<Seq<char>>,
    /// The credentials at rest; the last is handed out next.
    pub idle: Seq<Seq<char>>,
    /// The most units that may be in flight at once.
    pub concurrency: nat,
    /// The deadline given to each unit.
    pub timeout_secs: u64,
    /// The due repositories; a unit's number is its repository's place here.
    pub due: Seq<RepositoryView>,
    /// How many units have been started; they are started in order.
    pub started: nat,
    /// The units in flight, in the order in which they were started.
    pub running: Seq<RunningView>,
    /// The failures of the units that have ended, in the order of their end.
    pub failures: Seq<UnitFailureView>,
}

impl SchedulerView {
    /// Whether another unit can be started now: one is waiting, the
    /// concurrency limit is not reached and a credential is at rest.
    pub open spec fn can_start(self) -> bool {
        &&& self.started < self.due.len()
        &&& self.running.len() < self.concurrency
        &&& self.idle.len() > 0
    }

    /// The request to start the next waiting unit.
    pub open spec fn start_action(self) -> RunActionView {
        RunActionView::StartUnit {
            unit: self.started as usize,
            repository: self.due[self.started as int],
            credential: self.idle.last(),
            timeout_secs: self.timeout_secs,
        }
    }

    /// The state once the next waiting unit has been started with the
    /// credential that was handed out.
    pub open spec fn start_one(self) -> SchedulerView {
        SchedulerView {
            idle: self.idle.drop_last(),
            started: self.started + 1,
            running: self.running.push(
                RunningView { unit: self.started as usize, credential: self.idle.last() },
            ),
            ..self
        }
    }

    /// Starts units for as long as one can be started: the state after that
    /// and the requests made, in order.
    pub open spec fn dispatch(self) -> (SchedulerView, Seq<RunActionView>)
        decreases self.due.len() - self.started,
    {
        if self.can_start() {
            let (state, actions) = self.start_one().dispatch();
            (state, seq![self.start_action()] + actions)
        } else {
            (self, Seq::empty())
        }
    }

    /// The phase that the work at hand puts the run in: dispatching while a
    /// unit waits, draining while one is in flight, reporting after that.
    pub open spec fn working_phase(self) -> RunPhase {
        if self.started < self.due.len() {
            RunPhase::Dispatching
        } else if self.running.len() > 0 {
            RunPhase::Draining
        } else {
            RunPhase::Reporting
        }
    }

    /// Starts what can be started and moves to the phase that follows; where
    /// nothing is left to wait for, asks for the quota report.
    pub open spec fn advance(self) -> (SchedulerView, Seq<RunActionView>) {
        let (state, actions) = self.dispatch();
        let phase = state.working_phase();
        (
            SchedulerView { phase, ..state },
            if phase == RunPhase::Reporting {
                actions + quota_actions(self.credentials)
            } else {
                actions
            },
        )
    }

    /// The state once the unit at place `i` among those in flight has ended:
    /// its credential is at rest again, and its failure, if any, is noted
    /// under its repository's URL.
    pub open spec fn finish_unit(self, i: int, outcome: UnitOutcomeView) -> SchedulerView {
        SchedulerView {
            idle: self.idle.push(self.running[i].credential),
            running: self.running.remove(i),
            failures: match outcome.failure() {
                None => self.failures,
                Some(cause) => self.failures.push(
                    UnitFailureView { url: self.due[self.running[i].unit as int].url, cause },
                ),
            },
            ..self
        }
    }

    /// The state after an event and the requests it gives rise to.  An event
    /// that the phase does not expect, or that names a unit that is not in
    /// flight, changes nothing.
    pub open spec fn next(self, event: RunEventView) -> (SchedulerView, Seq<RunActionView>) {
        match (self.phase, event) {
            (RunPhase::Idle, RunEventView::Started) => (
                SchedulerView { phase: RunPhase::FetchingDueList, ..self },
                seq![RunActionView::LoadDueList],
            ),
            (RunPhase::FetchingDueList, RunEventView::DueList(Err(cause))) => (
                SchedulerView { phase: RunPhase::Done, ..self },
                seq![RunActionView::Finish(Err(RunErrorView::DueListFailed(cause)))],
            ),
            (RunPhase::FetchingDueList, RunEventView::DueList(Ok(due))) => if due.len() == 0 {
                (
                    SchedulerView { phase: RunPhase::Done, ..self },
                    seq![RunActionView::Finish(Ok(()))],
                )
            } else {
                SchedulerView { due, ..self }.advance()
            },
            (RunPhase::Dispatching, RunEventView::UnitFinished { unit, outcome })
            | (RunPhase::Draining, RunEventView::UnitFinished { unit, outcome }) => {
                match position_of(self.running, unit) {
                    None => (self, Seq::empty()),
                    Some(i) => self.finish_unit(i, outcome).advance(),
                }
            },
            (RunPhase::Reporting, RunEventView::QuotaReported) => (
                SchedulerView { phase: RunPhase::Done, ..self },
                seq![RunActionView::Finish(verdict_of(self.failures))],
            ),
            _ => (self, Seq::empty()),
        }
    }

    /// The credentials that the units in flight hold, in the order in which
    /// the units were started.
    pub open spec fn held(self) -> Seq<Seq<char>> {
        Seq::new(self.running.len(), |i: int| self.running[i].credential)
    }

    /// The bounds of a run: no more units are in flight than the concurrency
    /// limit allows, the credentials at rest and those held by the units in
    /// flight are together the configured ones, none lost and none twice, and
    /// the units in flight are different units that have been started.
    pub open spec fn steady(self) -> bool {
        &&& self.concurrency >= 1
        &&& self.credentials.len() >= 1
        &&& self.running.len() <= self.concurrency
        &&& self.running.len() + self.idle.len() == self.credentials.len()
        &&& self.held().to_multiset().add(self.idle.to_multiset())
            == self.credentials.to_multiset()
        &&& self.started <= self.due.len()
        &&& forall|i: int|
            0 <= i < self.running.len() ==> (#[trigger] self.running[i]).unit < self.started
        &&& forall|i: int, j: int|
            0 <= i < j < self.running.len() ==> (#[trigger] self.running[i]).unit != (
            #[trigger] self.running[j]).unit
    }

    /// What holds of every state of a run: the bounds, and a phase that fits
    /// the work at hand.
    pub open spec fn inv(self) -> bool {
        &&& self.steady()
        &&& match self.phase {
            RunPhase::Idle | RunPhase::FetchingDueList => self.due.len() == 0 && self.running.len()
                == 0 && self.failures.len() == 0,
            RunPhase::Dispatching => self.started < self.due.len() && self.running.len() > 0,
            RunPhase::Draining => self.started == self.due.len() && self.running.len() > 0,
            RunPhase::Reporting => self.started == self.due.len() && self.running.len() == 0
                && self.due.len() > 0,
            RunPhase::Done => self.running.len() == 0,
        }
    }
}

impl SchedulerView {
    /// The state before a run: all credentials at rest, nothing due yet.
    pub open spec fn initial(
        credentials: Seq<Seq<char>>,
        concurrency: nat,
        timeout_secs: u64,
    ) -> SchedulerView {
        SchedulerView {
            phase: RunPhase::Idle,
            credentials,
            idle: credentials,
            concurrency,
            timeout_secs,
            due: Seq::empty(),
            started: 0,
            running: Seq::empty(),
            failures: Seq::empty(),
        }
    }
}

/// A unit that is started leaves the bounds in place.
pub proof fn lemma_start_one(state: SchedulerView)
    requires
        state.steady(),
        state.can_start(),
        state.due.len() <= usize::MAX,
    ensures
        state.start_one().steady(),
{
    let after = state.start_one();
    assert(after.held().to_multiset().add(after.idle.to_multiset())
        == after.credentials.to_multiset()) by {
        broadcast use vstd::multiset::group_multiset_axioms;

        let handed = state.idle.last();
        assert(after.held() =~= state.held().push(handed));
        assert(state.idle =~= after.idle.push(handed));
        to_multiset_build(state.held(), handed);
        to_multiset_build(after.idle, handed);
        assert(after.held().to_multiset().add(after.idle.to_multiset())
            =~= state.held().to_multiset().add(state.idle.to_multiset()));
    }
    assert forall|i: int| 0 <= i < after.running.len() implies (#[trigger] after.running[i]).unit
        < after.started by {
        if i < state.running.len() {
            assert(after.running[i] == state.running[i]);
        }
    }
    assert forall|i: int, j: int| 0 <= i < j < after.running.len() implies (
    #[trigger] after.running[i]).unit != (#[trigger] after.running[j]).unit by {
        assert(after.running[i] == state.running[i]);
        if j < state.running.len() {
            assert(after.running[j] == state.running[j]);
        }
    }
}

/// Starting units keeps the bounds, touches neither the phase nor what was
/// configured, and ends only when no further unit can be started.
pub proof fn lemma_dispatch(state: SchedulerView)
    requires
        state.steady(),
        state.due.len() <= usize::MAX,
    ensures
        state.dispatch().0.steady(),
        !state.dispatch().0.can_start(),
        state.dispatch().0.phase == state.phase,
        state.dispatch().0.credentials == state.credentials,
        state.dispatch().0.concurrency == state.concurrency,
        state.dispatch().0.timeout_secs == state.timeout_secs,
        state.dispatch().0.due == state.due,
        state.dispatch().0.failures == state.failures,
        state.dispatch().0.started >= state.started,
        state.dispatch().0.running.len() >= state.running.len(),
        state.dispatch().1.len() == state.dispatch().0.started - state.started,
        forall|i: int|
            0 <= i < state.running.len() ==> #[trigger] state.dispatch().0.running[i]
                == state.running[i],
        forall|i: int|
            state.running.len() <= i < state.dispatch().0.running.len() ==> (
            #[trigger] state.dispatch().0.running[i]).unit >= state.started,
    decreases state.due.len() - state.started,
{
    if state.can_start() {
        let after = state.start_one();
        assert forall|i: int| 0 <= i < state.running.len() implies after.running[i]
            == state.running[i] by {}
        lemma_start_one(state);
        lemma_dispatch(after);
    }
}

/// Units are started in the order of the due list, each once and each with
/// its own repository and the configured deadline: the requests of a
/// dispatch are for the units from the first that waits on, one after the
/// other.
pub proof fn lemma_dispatch_starts_in_order(state: SchedulerView)
    requires
        state.steady(),
        state.due.len() <= usize::MAX,
    ensures
        forall|j: int|
            0 <= j < state.dispatch().1.len() ==> {
                &&& (#[trigger] state.dispatch().1[j]) matches RunActionView::StartUnit {
                    unit,
                    repository,
                    timeout_secs,
                    ..
                }
                &&& unit == state.started + j
                &&& state.started + j < state.due.len()
                &&& repository == state.due[state.started + j]
                &&& timeout_secs == state.timeout_secs
            },
    decreases state.due.len() - state.started,
{
    if state.can_start() {
        let after = state.start_one();
        lemma_start_one(state);
        lemma_dispatch(after);
        lemma_dispatch_starts_in_order(after);
        let rest = after.dispatch().1;
        let all = state.dispatch().1;
        assert(all =~= seq![state.start_action()] + rest);
        assert forall|j: int| 0 <= j < all.len() implies {
            &&& (#[trigger] all[j]) matches RunActionView::StartUnit {
                unit,
                repository,
                timeout_secs,
                ..
            }
            &&& unit == state.started + j
            &&& state.started + j < state.due.len()
            &&& repository == state.due[state.started + j]
            &&& timeout_secs == state.timeout_secs
        } by {
            if j > 0 {
                assert(all[j] == rest[j - 1]);
            }
        }
    }
}

/// A unit that ends leaves the bounds in place.
pub proof fn lemma_finish_unit(state: SchedulerView, i: int, outcome: UnitOutcomeView)
    requires
        state.steady(),
        0 <= i < state.running.len(),
    ensures
        state.finish_unit(i, outcome).steady(),
{
    let after = state.finish_unit(i, outcome);
    assert(after.held().to_multiset().add(after.idle.to_multiset())
        == after.credentials.to_multiset()) by {
        broadcast use vstd::multiset::group_multiset_axioms;

        let freed = state.running[i].credential;
        assert(state.held()[i] == freed);
        assert(after.held() =~= state.held().remove(i));
        to_multiset_remove(state.held(), i);
        to_multiset_build(state.idle, freed);
        to_multiset_contains(state.held(), freed);
        assert(state.held().to_multiset().count(freed) > 0);
        assert(after.held().to_multiset().add(after.idle.to_multiset())
            =~= state.held().to_multiset().add(state.idle.to_multiset()));
    }
    assert forall|k: int| 0 <= k < after.running.len() implies (#[trigger] after.running[k]).unit
        < after.started by {
        if k < i {
            assert(after.running[k] == state.running[k]);
        } else {
            assert(after.running[k] == state.running[k + 1]);
        }
    }
    assert forall|k: int, l: int| 0 <= k < l < after.running.len() implies (
    #[trigger] after.running[k]).unit != (#[trigger] after.running[l]).unit by {
        let k0 = if k < i { k } else { k + 1 };
        let l0 = if l < i { l } else { l + 1 };
        assert(after.running[k] == state.running[k0]);
        assert(after.running[l] == state.running[l0]);
    }
}

/// Where a unit stands among those in flight: at the first place that names
/// it, and nowhere if none does.
pub proof fn lemma_position_of(running: Seq<RunningView>, unit: usize)
    ensures
        match position_of(running, unit) {
            None => forall|k: int| 0 <= k < running.len() ==> (#[trigger] running[k]).unit != unit,
            Some(i) => 0 <= i < running.len() && running[i].unit == unit && forall|k: int|
                0 <= k < i ==> (#[trigger] running[k]).unit != unit,
        },
    decreases running.len(),
{
    if running.len() > 0 && running[0].unit != unit {
        let rest = running.drop_first();
        lemma_position_of(rest, unit);
        match position_of(rest, unit) {
            None => {
                assert forall|k: int| 0 <= k < running.len() implies (#[trigger] running[k]).unit
                    != unit by {
                    if k > 0 {
                        assert(running[k] == rest[k - 1]);
                    }
                }
            },
            Some(i) => {
                assert(running[i + 1] == rest[i]);
                assert forall|k: int| 0 <= k < i + 1 implies (#[trigger] running[k]).unit
                    != unit by {
                    if k > 0 {
                        assert(running[k] == rest[k - 1]);
                    }
                }
            },
        }
    }
}

/// Fault isolation.  When a unit in flight ends, its failure, if it failed,
/// is noted under its own repository's URL and nothing else is added to the
/// failures; a unit that succeeded adds nothing.  Every other unit in flight
/// stays in flight, and the unit that ended is in flight no more.
pub proof fn lemma_unit_end_is_isolated(state: SchedulerView, unit: usize, outcome: UnitOutcomeView)
    requires
        state.inv(),
        state.due.len() <= usize::MAX,
        state.phase == RunPhase::Dispatching || state.phase == RunPhase::Draining,
        position_of(state.running, unit) is Some,
    ensures
        ({
            let after = state.next(RunEventView::UnitFinished { unit, outcome }).0;
            &&& unit < state.due.len()
            &&& outcome.failure() is None ==> after.failures == state.failures
            &&& outcome.failure() matches Some(cause) ==> after.failures == state.failures.push(
                UnitFailureView { url: state.due[unit as int].url, cause },
            )
            &&& position_of(after.running, unit) is None
            &&& forall|i: int|
                0 <= i < state.running.len() && (#[trigger] state.running[i]).unit != unit
                    ==> position_of(after.running, state.running[i].unit) is Some
        }),
{
    lemma_position_of(state.running, unit);
    let place = position_of(state.running, unit)->0;
    let ended = state.finish_unit(place, outcome);
    lemma_finish_unit(state, place, outcome);
    lemma_dispatch(ended);
    let after = state.next(RunEventView::UnitFinished { unit, outcome }).0;
    assert(after.running == ended.dispatch().0.running);
    assert forall|k: int| 0 <= k < after.running.len() implies (#[trigger] after.running[k]).unit
        != unit by {
        if k < ended.running.len() {
            assert(after.running[k] == ended.running[k]);
            let k0 = if k < place { k } else { k + 1 };
            assert(ended.running[k] == state.running[k0]);
            if k0 < place {
                assert(state.running[k0].unit != state.running[place].unit);
            } else {
                assert(state.running[place].unit != state.running[k0].unit);
            }
        } else {
            assert(state.running[place].unit < state.started);
        }
    }
    lemma_position_of(after.running, unit);
    assert forall|i: int|
        0 <= i < state.running.len() && (#[trigger] state.running[i]).unit
            != unit implies position_of(after.running, state.running[i].unit) is Some by {
        let i0 = if i < place { i } else { i - 1 };
        assert(ended.running[i0] == state.running[i]);
        assert(after.running[i0] == ended.running[i0]);
        lemma_position_of(after.running, state.running[i].unit);
    }
}

/// Only the end of a unit adds to the failures: any other event leaves them
/// as they are.
pub proof fn lemma_failures_come_from_units(state: SchedulerView, event: RunEventView)
    requires
        state.inv(),
        state.due.len() <= usize::MAX,
        event matches RunEventView::DueList(Ok(due)) ==> due.len() <= usize::MAX,
        !(event is UnitFinished),
    ensures
        state.next(event).0.failures == state.failures,
{
    match (state.phase, event) {
        (RunPhase::FetchingDueList, RunEventView::DueList(Ok(due))) => {
            if due.len() > 0 {
                lemma_dispatch(SchedulerView { due, ..state });
            }
        },
        _ => {},
    }
}

/// Bounded concurrency: whatever happens, a run that is in order stays in
/// order.  At no time are more units in flight than the concurrency limit
/// allows, each of them holds one credential, and the credentials held and
/// those at rest are together the configured ones.
pub proof fn lemma_next_keeps_invariant(state: SchedulerView, event: RunEventView)
    requires
        state.inv(),
        state.due.len() <= usize::MAX,
        event matches RunEventView::DueList(Ok(due)) ==> due.len() <= usize::MAX,
    ensures
        state.next(event).0.inv(),
        state.next(event).0.running.len() <= state.concurrency,
        state.next(event).0.concurrency == state.concurrency,
        state.next(event).0.credentials == state.credentials,
        state.next(event).0.timeout_secs == state.timeout_secs,
        state.next(event).0.due.len() <= usize::MAX,
{
    match (state.phase, event) {
        (RunPhase::FetchingDueList, RunEventView::DueList(Ok(due))) => {
            if due.len() > 0 {
                let loaded = SchedulerView { due, ..state };
                lemma_dispatch(loaded);
            }
        },
        (RunPhase::Dispatching, RunEventView::UnitFinished { unit, outcome })
        | (RunPhase::Draining, RunEventView::UnitFinished { unit, outcome }) => {
            lemma_position_of(state.running, unit);
            match position_of(state.running, unit) {
                None => {},
                Some(i) => {
                    lemma_finish_unit(state, i, outcome);
                    lemma_dispatch(state.finish_unit(i, outcome));
                },
            }
        },
        _ => {},
    }
}

/// The place of a unit among those in flight, if it is there.
fn find_running(running: &Vec<Running>, unit: usize) -> (place: Option<usize>)
    ensures
        match place {
            None => position_of(running.deep_view(), unit) is None,
            Some(i) => position_of(running.deep_view(), unit) == Some(i as int) && i
                < running.len(),
        },
{
    proof {
        lemma_position_of(running.deep_view(), unit);
    }
    let mut i: usize = 0;
    while i < running.len()
        invariant
            i <= running.len(),
            forall|k: int| 0 <= k < i ==> (#[trigger] running.deep_view()[k]).unit != unit,
        decreases running.len() - i,
    {
        if running[i].unit == unit {
            proof {
                let listed = running.deep_view();
                assert(listed[i as int].unit == unit);
                lemma_position_of(listed, unit);
                match position_of(listed, unit) {
                    None => {},
                    Some(first) => {
                        if first < i {
                            assert(listed[first].unit != unit);
                        }
                    },
                }
            }
            return Some(i);
        }
        assert(running.deep_view()[i as int].unit != unit);
        i = i + 1;
    }
    None
}

/// The scheduler of one run.
pub struct Scheduler {
    phase: RunPhase,
    credentials: Vec<String>,
    pool: CredentialPool,
    concurrency: usize,
    timeout_secs: u64,
    due: Vec<Repository>,
    started: usize,
    running: Vec<Running>,
    failures: Vec<UnitFailure>,
}

impl View for Scheduler {
    type V = SchedulerView;

    closed spec fn view(&self) -> SchedulerView {
        SchedulerView {
            phase: self.phase,
            credentials: self.credentials.deep_view(),
            idle: self.pool.idle(),
            concurrency: self.concurrency as nat,
            timeout_secs: self.timeout_secs,
            due: self.due.deep_view(),
            started: self.started as nat,
            running: self.running.deep_view(),
            failures: self.failures.deep_view(),
        }
    }
}

impl Scheduler {
    /// The scheduler's parts fit together and its state is in order.
    pub closed spec fn wf(&self) -> bool {
        &&& self.pool.wf()
        &&& self.pool.capacity() == self.credentials.len()
        &&& self@.inv()
    }

    /// A scheduler for one run over the given credentials, with at most
    /// `concurrency` units in flight at once and `timeout_secs` seconds for
    /// each.  An empty set of credentials is refused.
    pub fn new(credentials: Vec<String>, concurrency: usize, timeout_secs: u64) -> (made: Result<
        Scheduler,
        TrackError,
    >)
        requires
            concurrency >= 1,
            timeout_secs >= 1,
        ensures
            credentials.len() == 0 <==> made is Err,
            made matches Err(e) ==> e is CredentialsMissing,
            made matches Ok(scheduler) ==> scheduler.wf() && scheduler@ == SchedulerView::initial(
                credentials.deep_view(),
                concurrency as nat,
                timeout_secs,
            ),
    {
        let configured = duplicate_texts(&credentials);
        match CredentialPool::new(credentials) {
            Err(e) => Err(e),
            Ok(pool) => {
                let scheduler = Scheduler {
                    phase: RunPhase::Idle,
                    credentials: configured,
                    pool,
                    concurrency,
                    timeout_secs,
                    due: Vec::new(),
                    started: 0,
                    running: Vec::new(),
                    failures: Vec::new(),
                };
                proof {
                    assert(scheduler.due.deep_view() =~= Seq::<RepositoryView>::empty());
                    assert(scheduler.running.deep_view() =~= Seq::<RunningView>::empty());
                    assert(scheduler.failures.deep_view() =~= Seq::<UnitFailureView>::empty());
                    assert(scheduler.credentials.deep_view().len() == credentials.len());
                    assert(scheduler@.held() =~= Seq::<Seq<char>>::empty());
                    assert(scheduler@.held().to_multiset().add(scheduler@.idle.to_multiset())
                        =~= scheduler@.credentials.to_multiset()) by {
                        broadcast use vstd::multiset::group_multiset_axioms;
                        broadcast use vstd::seq_lib::group_to_multiset_ensures;

                    }
                }
                Ok(scheduler)
            },
        }
    }

    /// Starts units for as long as one can be started, and adds a request
    /// for each to `actions`.
    fn dispatch(&mut self, actions: &mut Vec<RunAction>)
        requires
            old(self).pool.wf(),
            old(self).pool.capacity() == old(self).credentials.len(),
            old(self)@.steady(),
        ensures
            final(self).pool.wf(),
            final(self).pool.capacity() == final(self).credentials.len(),
            final(self)@ == old(self)@.dispatch().0,
            final(actions).deep_view() == old(actions).deep_view() + old(self)@.dispatch().1,
    {
        let ghost before = self@;
        let ghost base = actions.deep_view();
        while self.started < self.due.len() && self.running.len() < self.concurrency
            invariant
                self.pool.wf(),
                self.pool.capacity() == self.credentials.len(),
                self@.steady(),
                before.dispatch().0 == self@.dispatch().0,
                base + before.dispatch().1 == actions.deep_view() + self@.dispatch().1,
            ensures
                !self@.can_start(),
            decreases self.due.len() - self.started,
        {
            let ghost here = self@;
            let ghost listed = actions.deep_view();
            match self.pool.acquire() {
                None => {
                    break ;
                },
                Some(credential) => {
                    let repository = self.due[self.started].duplicate();
                    self.running.push(
                        Running { unit: self.started, credential: credential.clone() },
                    );
                    actions.push(
                        RunAction::StartUnit {
                            unit: self.started,
                            repository,
                            credential,
                            timeout_secs: self.timeout_secs,
                        },
                    );
                    self.started = self.started + 1;
                    proof {
                        assert(here.due.len() == self.due.len());
                        lemma_start_one(here);
                        assert(self.running.deep_view() =~= here.start_one().running);
                        assert(self@ == here.start_one());
                        assert(actions.deep_view() =~= listed.push(here.start_action()));
                        assert(actions.deep_view() + self@.dispatch().1 =~= listed
                            + here.dispatch().1);
                    }
                },
            }
        }
        proof {
            assert(actions.deep_view() + Seq::<RunActionView>::empty() =~= actions.deep_view());
        }
    }

    /// Adds to `actions` one request to look up the rate limit for each
    /// configured credential.
    fn report_quota(&self, actions: &mut Vec<RunAction>)
        ensures
            final(actions).deep_view() == old(actions).deep_view() + quota_actions(
                self.credentials.deep_view(),
            ),
    {
        let ghost base = actions.deep_view();
        let mut i: usize = 0;
        while i < self.credentials.len()
            invariant
                i <= self.credentials.len(),
                actions.deep_view() == base + quota_actions(self.credentials.deep_view()).take(
                    i as int,
                ),
            decreases self.credentials.len() - i,
        {
            let ghost listed = actions.deep_view();
            actions.push(RunAction::CheckRateLimit { credential: self.credentials[i].clone() });
            proof {
                let all = quota_actions(self.credentials.deep_view());
                assert(actions.deep_view() =~= listed.push(all[i as int]));
                assert(all.take(i + 1) =~= all.take(i as int).push(all[i as int]));
                assert(base + all.take(i + 1) =~= (base + all.take(i as int)).push(all[i as int]));
            }
            i = i + 1;
        }
        proof {
            let all = quota_actions(self.credentials.deep_view());
            assert(all.take(all.len() as int) =~= all);
        }
    }

    /// Starts what can be started and moves to the phase that follows.
    fn advance(&mut self) -> (actions: Vec<RunAction>)
        requires
            old(self).pool.wf(),
            old(self).pool.capacity() == old(self).credentials.len(),
            old(self)@.steady(),
        ensures
            final(self).pool.wf(),
            final(self).pool.capacity() == final(self).credentials.len(),
            (final(self)@, actions.deep_view()) == old(self)@.advance(),
    {
        proof {
            assert(self@.due.len() == self.due.len());
            lemma_dispatch(self@);
        }
        let mut actions: Vec<RunAction> = Vec::new();
        assert(actions.deep_view() =~= Seq::<RunActionView>::empty());
        self.dispatch(&mut actions);
        assert(actions.deep_view() =~= old(self)@.dispatch().1);
        if self.started < self.due.len() {
            self.phase = RunPhase::Dispatching;
        } else if self.running.len() > 0 {
            self.phase = RunPhase::Draining;
        } else {
            self.phase = RunPhase::Reporting;
            self.report_quota(&mut actions);
        }
        actions
    }

    /// The state of a well-formed scheduler is in order.
    pub proof fn lemma_wf_state_in_order(&self)
        requires
            self.wf(),
        ensures
            self@.inv(),
            self@.due.len() <= usize::MAX,
    {
        assert(self@.due.len() == self.due.len());
    }

    /// Where the run stands.
    pub fn phase(&self) -> (phase: RunPhase)
        ensures
            phase == self@.phase,
    {
        self.phase
    }

    /// The number of units in flight, which is also the number of
    /// credentials handed out; it never exceeds the concurrency limit.
    pub fn in_flight(&self) -> (count: usize)
        requires
            self.wf(),
        ensures
            count == self@.running.len(),
            count <= self@.concurrency,
            count + self@.idle.len() == self@.credentials.len(),
    {
        self.running.len()
    }

    /// The number of units that have been started so far.
    pub fn started(&self) -> (count: usize)
        ensures
            count == self@.started,
    {
        self.started
    }

    /// The most units that may be in flight at once.
    pub fn concurrency(&self) -> (limit: usize)
        ensures
            limit == self@.concurrency,
    {
        self.concurrency
    }

    /// The deadline given to each unit, in seconds.
    pub fn timeout_secs(&self) -> (seconds: u64)
        ensures
            seconds == self@.timeout_secs,
    {
        self.timeout_secs
    }

    /// Takes an event and says what is to be done next.
    pub fn step(&mut self, event: RunEvent) -> (actions: Vec<RunAction>)
        requires
            old(self).wf(),
        ensures
            final(self).wf(),
            (final(self)@, actions.deep_view()) == old(self)@.next(event@),
            final(self)@.concurrency == old(self)@.concurrency,
            final(self)@.credentials == old(self)@.credentials,
            final(self)@.timeout_secs == old(self)@.timeout_secs,
            final(self)@.running.len() <= old(self)@.concurrency,
    {
        proof {
            assert(self@.due.len() == self.due.len());
            if let RunEventView::DueList(Ok(due)) = event@ {
                assert(due.len() == event->DueList_0->Ok_0.len());
            }
            lemma_next_keeps_invariant(self@, event@);
        }
        let mut actions: Vec<RunAction> = Vec::new();
        assert(actions.deep_view() =~= Seq::<RunActionView>::empty());
        match event {
            RunEvent::Started => {
                if self.phase == RunPhase::Idle {
                    self.phase = RunPhase::FetchingDueList;
                    actions.push(RunAction::LoadDueList);
                    assert(actions.deep_view() =~= seq![RunActionView::LoadDueList]);
                }
            },
            RunEvent::DueList(answer) => {
                if self.phase == RunPhase::FetchingDueList {
                    match answer {
                        Err(cause) => {
                            self.phase = RunPhase::Done;
                            actions.push(RunAction::Finish(Err(RunError::DueListFailed(cause))));
                            assert(actions.deep_view() =~= seq![
                                RunActionView::Finish(Err(RunErrorView::DueListFailed(cause@))),
                            ]);
                        },
                        Ok(due) => {
                            if due.len() == 0 {
                                self.phase = RunPhase::Done;
                                actions.push(RunAction::Finish(Ok(())));
                                assert(actions.deep_view() =~= seq![RunActionView::Finish(Ok(()))]);
                            } else {
                                self.due = due;
                                actions = self.advance();
                            }
                        },
                    }
                }
            },
            RunEvent::UnitFinished { unit, outcome } => {
                if self.phase == RunPhase::Dispatching || self.phase == RunPhase::Draining {
                    match find_running(&self.running, unit) {
                        None => {},
                        Some(i) => {
                            let ghost before = self@;
                            proof {
                                lemma_position_of(before.running, unit);
                                lemma_finish_unit(before, i as int, outcome@);
                            }
                            let ended = self.running.remove(i);
                            assert(ended@ == before.running[i as int]);
                            assert(self.running.deep_view() =~= before.running.remove(i as int));
                            let refused = self.pool.release(ended.credential);
                            assert(refused is None);
                            match outcome.failure() {
                                None => {},
                                Some(cause) => {
                                    let url = self.due[ended.unit].url.clone();
                                    self.failures.push(UnitFailure { url, cause });
                                    assert(self.failures.deep_view() =~= before.failures.push(
                                        UnitFailureView {
                                            url: before.due[ended.unit as int].url,
                                            cause: cause@,
                                        },
                                    ));
                                },
                            }
                            assert(self@ == before.finish_unit(i as int, outcome@));
                            actions = self.advance();
                        },
                    }
                }
            },
            RunEvent::QuotaReported => {
                if self.phase == RunPhase::Reporting {
                    self.phase = RunPhase::Done;
                    let verdict = aggregate(duplicate_failures(&self.failures));
                    actions.push(RunAction::Finish(verdict));
                    assert(actions.deep_view() =~= seq![
                        RunActionView::Finish(verdict_of(self.failures.deep_view())),
                    ]);
                }
            },
        }
        actions
    }
}

} // verus!
