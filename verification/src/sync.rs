//! The synchronisation of one repository.
//!
//! A unit of work fetches the repository's upstream state, writes the
//! metadata where it changed, reconciles the issues and, last of all, stamps
//! the repository as tracked.  The steps are strictly in this order, and the
//! first failure ends the unit.  The unit decides; its caller makes each
//! call and hands the answer back as the next event.

use crate::convergence::{
    apply_writes, distinct_ids, lemma_second_reconciliation_is_empty, store_of,
};
use crate::error::{TrackError, TrackErrorView};
use crate::model::{Issue, IssueView, RemoteRepository, RemoteRepositoryView, Repository, RepositoryView};
use crate::reconcile::{
    all_digests_present, reconcile_issues, reconciliation, IssueWrite, IssueWriteView,
};
use uuid::Uuid;
use vstd::prelude::*;

verus! {

/// Where a unit of work stands.
#[derive(Clone, Copy, Debug, PartialEq, Eq, Structural)]
pub enum SyncPhase {
    /// The upstream state has been asked for.
    Fetching,
    /// The changed metadata is being written.
    WritingMetadata,
    /// The datastore's issues have been asked for.
    LoadingIssues,
    /// The issue writes are being made, one at a time.
    WritingIssues,
    /// The repository is being stamped as tracked.
    Stamping,
    /// The unit is over.
    Done,
}

/// What the caller reports to a unit of work.
#[derive(Debug, PartialEq)]
pub enum SyncEvent {
    /// The remote API answered.
    Fetched(Result<RemoteRepository, String>),
    /// The datastore answered a request for the repository's issues.
    LocalIssues(Result<Vec<Issue>, String>),
    /// The datastore answered a write.
    Stored(Result<(), String>),
}

/// A [`SyncEvent`] with its texts as sequences of characters.
pub enum SyncEventView {
    Fetched(Result<RemoteRepositoryView, Seq<char>>),
    LocalIssues(Result<Seq<IssueView>, Seq<char>>),
    Stored(Result<(), Seq<char>>),
}

impl View for SyncEvent {
    type V = SyncEventView;

    open spec fn view(&self) -> SyncEventView {
        match self {
            SyncEvent::Fetched(Ok(remote)) => SyncEventView::Fetched(Ok(remote@)),
            SyncEvent::Fetched(Err(cause)) => SyncEventView::Fetched(Err(cause@)),
            SyncEvent::LocalIssues(Ok(issues)) => SyncEventView::LocalIssues(
                Ok(issues.deep_view()),
            ),
            SyncEvent::LocalIssues(Err(cause)) => SyncEventView::LocalIssues(Err(cause@)),
            SyncEvent::Stored(Ok(())) => SyncEventView::Stored(Ok(())),
            SyncEvent::Stored(Err(cause)) => SyncEventView::Stored(Err(cause@)),
        }
    }
}

/// What a unit of work asks of its caller.
#[derive(Debug, PartialEq)]
pub enum SyncAction {
    /// Fetch the repository's metadata and open issues from the remote API.
    FetchRepository { url: String },
    /// Write the repository's metadata to the datastore.
    UpdateRepositoryMetadata(Repository),
    /// Ask the datastore for the issues it holds of the repository.
    GetRepositoryIssues(Uuid),
    /// Insert or replace an issue of the repository in the datastore.
    RegisterIssue(Uuid, Issue),
    /// Delete an issue from the datastore.
    UnregisterIssue(i64),
    /// Stamp the repository as tracked now.
    UpdateLastTrackTimestamp(Uuid),
    /// The unit is over, with this result.
    Finish(Result<(), TrackError>),
}

/// A [`SyncAction`] with its texts as sequences of characters.
pub enum SyncActionView {
    FetchRepository { url: Seq<char> },
    UpdateRepositoryMetadata(RepositoryView),
    GetRepositoryIssues(Uuid),
    RegisterIssue(Uuid, IssueView),
    UnregisterIssue(i64),
    UpdateLastTrackTimestamp(Uuid),
    Finish(Result<(), TrackErrorView>),
}

impl View for SyncAction {
    type V = SyncActionView;

    open spec fn view(&self) -> SyncActionView {
        match self {
            SyncAction::FetchRepository { url } => SyncActionView::FetchRepository { url: url@ },
            SyncAction::UpdateRepositoryMetadata(repository) => {
                SyncActionView::UpdateRepositoryMetadata(repository@)
            },
            SyncAction::GetRepositoryIssues(id) => SyncActionView::GetRepositoryIssues(*id),
            SyncAction::RegisterIssue(id, issue) => SyncActionView::RegisterIssue(*id, issue@),
            SyncAction::UnregisterIssue(issue_id) => SyncActionView::UnregisterIssue(*issue_id),
            SyncAction::UpdateLastTrackTimestamp(id) => SyncActionView::UpdateLastTrackTimestamp(
                *id,
            ),
            SyncAction::Finish(Ok(())) => SyncActionView::Finish(Ok(())),
            SyncAction::Finish(Err(cause)) => SyncActionView::Finish(Err(cause@)),
        }
    }
}

/// The view of an optional action.
pub open spec fn action_view(action: Option<SyncAction>) -> Option<SyncActionView> {
    match action {
        None => None,
        Some(action) => Some(action@),
    }
}

/// The request that makes one issue write for the given repository.
pub open spec fn write_request(repository_id: Uuid, write: IssueWriteView) -> SyncActionView {
    match write {
        IssueWriteView::Register(issue) => SyncActionView::RegisterIssue(repository_id, issue),
        IssueWriteView::Unregister(issue_id) => SyncActionView::UnregisterIssue(issue_id),
    }
}

/// The requests that make the given issue writes, in order.
pub open spec fn write_requests(repository_id: Uuid, writes: Seq<IssueWriteView>) -> Seq<
    SyncActionView,
> {
    Seq::new(writes.len(), |i: int| write_request(repository_id, writes[i]))
}

/// The answer to a request when the call succeeds: the upstream state to a
/// fetch, the datastore's issues to the request for them, a confirmation to
/// a write.
pub open spec fn good_answer(
    action: SyncActionView,
    remote: RemoteRepositoryView,
    local: Seq<IssueView>,
) -> SyncEventView {
    match action {
        SyncActionView::FetchRepository { .. } => SyncEventView::Fetched(Ok(remote)),
        SyncActionView::GetRepositoryIssues(_) => SyncEventView::LocalIssues(Ok(local)),
        _ => SyncEventView::Stored(Ok(())),
    }
}

/// Every request of a unit whose calls all succeed: the fetch; the metadata
/// write where the digest of what was fetched is another than the stored
/// one; the request for the datastore's issues; the issue writes of the
/// reconciliation; the stamp; the good end.
pub open spec fn unit_requests(
    repository: RepositoryView,
    remote: RemoteRepositoryView,
    local: Seq<IssueView>,
) -> Seq<SyncActionView> {
    let fresh = repository.with_remote(remote).with_fresh_digest();
    let id = repository.repository_id;
    seq![SyncActionView::FetchRepository { url: repository.url }] + (if fresh.digest
        != repository.digest {
        seq![SyncActionView::UpdateRepositoryMetadata(fresh)]
    } else {
        Seq::empty()
    }) + seq![SyncActionView::GetRepositoryIssues(id)] + write_requests(
        id,
        reconciliation(remote.issues, local),
    ) + seq![SyncActionView::UpdateLastTrackTimestamp(id), SyncActionView::Finish(Ok(()))]
}

/// The state of a unit of work.
pub struct SyncUnitView {
    pub phase: SyncPhase,
    /// The repository, with what was fetched once it was fetched.
    pub repository: RepositoryView,
    /// The open issues upstream, once they were fetched.
    pub remote_issues: Seq<IssueView>,
    /// The issue writes to make, once the datastore's issues are known.
    pub writes: Seq<IssueWriteView>,
    /// How many of the issue writes have been asked for.
    pub asked: nat,
}

impl SyncUnitView {
    /// The state of a unit that has just asked for the upstream state.
    pub open spec fn initial(repository: RepositoryView) -> SyncUnitView {
        SyncUnitView {
            phase: SyncPhase::Fetching,
            repository,
            remote_issues: Seq::empty(),
            writes: Seq::empty(),
            asked: 0,
        }
    }

    /// The request that makes one issue write.
    pub open spec fn write_action(self, write: IssueWriteView) -> SyncActionView {
        write_request(self.repository.repository_id, write)
    }

    /// The requests that a unit makes from the given request on while every
    /// call succeeds: the request, and what follows on its good answer, for
    /// at most `limit` further requests.
    pub open spec fn requests_from(
        self,
        action: SyncActionView,
        remote: RemoteRepositoryView,
        local: Seq<IssueView>,
        limit: nat,
    ) -> Seq<SyncActionView>
        decreases limit,
    {
        if action is Finish || limit == 0 {
            seq![action]
        } else {
            let (state, asked) = self.next(good_answer(action, remote, local));
            match asked {
                None => seq![action],
                Some(following) => seq![action] + state.requests_from(
                    following,
                    remote,
                    local,
                    (limit - 1) as nat,
                ),
            }
        }
    }

    /// The unit ends with the given result.
    pub open spec fn finish(self, result: Result<(), TrackErrorView>) -> (
        SyncUnitView,
        Option<SyncActionView>,
    ) {
        (SyncUnitView { phase: SyncPhase::Done, ..self }, Some(SyncActionView::Finish(result)))
    }

    /// The unit goes on to ask for the datastore's issues.
    pub open spec fn load_issues(self) -> (SyncUnitView, Option<SyncActionView>) {
        (
            SyncUnitView { phase: SyncPhase::LoadingIssues, ..self },
            Some(SyncActionView::GetRepositoryIssues(self.repository.repository_id)),
        )
    }

    /// The unit asks for the next issue write, or for the stamp where all
    /// writes have been asked for.
    pub open spec fn next_write(self) -> (SyncUnitView, Option<SyncActionView>) {
        if self.asked < self.writes.len() {
            (
                SyncUnitView { phase: SyncPhase::WritingIssues, asked: self.asked + 1, ..self },
                Some(self.write_action(self.writes[self.asked as int])),
            )
        } else {
            (
                SyncUnitView { phase: SyncPhase::Stamping, ..self },
                Some(SyncActionView::UpdateLastTrackTimestamp(self.repository.repository_id)),
            )
        }
    }

    /// The unit has the upstream state: it takes the metadata over and asks
    /// for it to be written where the digest is another than before, else
    /// goes on to the issues.
    pub open spec fn fetched(self, remote: RemoteRepositoryView) -> (
        SyncUnitView,
        Option<SyncActionView>,
    ) {
        let fresh = self.repository.with_remote(remote).with_fresh_digest();
        let state = SyncUnitView { repository: fresh, remote_issues: remote.issues, ..self };
        if fresh.digest != self.repository.digest {
            (
                SyncUnitView { phase: SyncPhase::WritingMetadata, ..state },
                Some(SyncActionView::UpdateRepositoryMetadata(fresh)),
            )
        } else {
            state.load_issues()
        }
    }

    /// The state after an event and the request it gives rise to.  An event
    /// that the phase does not expect changes nothing and asks for nothing.
    pub open spec fn next(self, event: SyncEventView) -> (SyncUnitView, Option<SyncActionView>) {
        match (self.phase, event) {
            (SyncPhase::Fetching, SyncEventView::Fetched(Err(cause))) => self.finish(
                Err(TrackErrorView::FetchFailed(cause)),
            ),
            (SyncPhase::Fetching, SyncEventView::Fetched(Ok(remote))) => self.fetched(remote),
            (SyncPhase::WritingMetadata, SyncEventView::Stored(Ok(()))) => self.load_issues(),
            (SyncPhase::LoadingIssues, SyncEventView::LocalIssues(Ok(local))) => SyncUnitView {
                writes: reconciliation(self.remote_issues, local),
                asked: 0,
                ..self
            }.next_write(),
            (SyncPhase::WritingIssues, SyncEventView::Stored(Ok(()))) => self.next_write(),
            (SyncPhase::Stamping, SyncEventView::Stored(Ok(()))) => self.finish(Ok(())),
            (SyncPhase::LoadingIssues, SyncEventView::LocalIssues(Err(cause)))
            | (SyncPhase::WritingMetadata, SyncEventView::Stored(Err(cause)))
            | (SyncPhase::WritingIssues, SyncEventView::Stored(Err(cause)))
            | (SyncPhase::Stamping, SyncEventView::Stored(Err(cause))) => self.finish(
                Err(TrackErrorView::DatastoreWriteFailed(cause)),
            ),
            _ => (self, None),
        }
    }

    /// What holds of every state of a unit: once the upstream issues are
    /// there, each carries its digest.
    pub open spec fn inv(self) -> bool {
        all_digests_present(self.remote_issues)
    }
}

/// Idempotence.  Let a repository have been synchronised against an
/// upstream state whose issues have distinct identifiers and carry their
/// digests: its metadata and digest are those fetched, and the datastore
/// holds what the issue writes left.  A second synchronisation against the
/// same upstream state then writes no metadata and no issue: it asks for the
/// datastore's issues, stamps the repository as tracked and ends well.
pub proof fn lemma_second_sync_only_stamps(
    repository: RepositoryView,
    remote: RemoteRepositoryView,
    local: Seq<IssueView>,
    relisted: Seq<IssueView>,
)
    requires
        distinct_ids(remote.issues),
        all_digests_present(remote.issues),
        store_of(relisted) == apply_writes(store_of(local), reconciliation(remote.issues, local)),
    ensures
        ({
            let synced = repository.with_remote(remote).with_fresh_digest();
            let begun = SyncUnitView::initial(synced);
            let (loading, first) = begun.next(SyncEventView::Fetched(Ok(remote)));
            let (stamping, second) = loading.next(SyncEventView::LocalIssues(Ok(relisted)));
            let (done, third) = stamping.next(SyncEventView::Stored(Ok(())));
            &&& first == Some(SyncActionView::GetRepositoryIssues(repository.repository_id))
            &&& second == Some(SyncActionView::UpdateLastTrackTimestamp(repository.repository_id))
            &&& third == Some(SyncActionView::Finish(Ok(())))
            &&& done.repository == synced
        }),
{
    lemma_second_reconciliation_is_empty(remote.issues, local, relisted);
}

/// The stamp is never left out: a unit ends well only from the stamping
/// phase, that is once the datastore has confirmed the stamp.
pub proof fn lemma_success_follows_stamp(state: SyncUnitView, event: SyncEventView)
    requires
        state.next(event).1 == Some(SyncActionView::Finish(Ok(()))),
    ensures
        state.phase == SyncPhase::Stamping,
        event matches SyncEventView::Stored(Ok(_)),
{
}

/// While every write is confirmed, a unit that is writing issues asks for
/// the writes that are left, in order, then for the stamp, and ends well.
pub proof fn lemma_requests_while_writing(
    state: SyncUnitView,
    remote: RemoteRepositoryView,
    local: Seq<IssueView>,
    limit: nat,
)
    requires
        state.phase == SyncPhase::WritingIssues,
        1 <= state.asked <= state.writes.len(),
        limit >= state.writes.len() - state.asked + 2,
    ensures
        state.requests_from(
            state.write_action(state.writes[state.asked - 1]),
            remote,
            local,
            limit,
        ) == write_requests(state.repository.repository_id, state.writes).skip(state.asked - 1)
            + seq![
            SyncActionView::UpdateLastTrackTimestamp(state.repository.repository_id),
            SyncActionView::Finish(Ok(())),
        ],
    decreases state.writes.len() - state.asked,
{
    reveal_with_fuel(SyncUnitView::requests_from, 3);
    let id = state.repository.repository_id;
    let all = write_requests(id, state.writes);
    let end = seq![
        SyncActionView::UpdateLastTrackTimestamp(id),
        SyncActionView::Finish(Ok(())),
    ];
    let action = state.write_action(state.writes[state.asked - 1]);
    let (after, asked) = state.next(good_answer(action, remote, local));
    assert(all[state.asked - 1] == action);
    if state.asked < state.writes.len() {
        lemma_requests_while_writing(after, remote, local, (limit - 1) as nat);
        assert(seq![action] + (all.skip(state.asked as int) + end) =~= all.skip(state.asked - 1)
            + end);
    } else {
        assert(seq![action] + end =~= all.skip(state.asked - 1) + end);
    }
}

/// The requests of a unit.  While every call succeeds, a unit asks for
/// exactly this, in this order: the fetch; one metadata write where the
/// digest of what was fetched is another than the stored one, and none
/// otherwise; the datastore's issues; the issue writes of the
/// reconciliation; one stamp; and it ends well.
pub proof fn lemma_unit_requests(
    repository: RepositoryView,
    remote: RemoteRepositoryView,
    local: Seq<IssueView>,
    limit: nat,
)
    requires
        limit >= reconciliation(remote.issues, local).len() + 5,
    ensures
        SyncUnitView::initial(repository).requests_from(
            SyncActionView::FetchRepository { url: repository.url },
            remote,
            local,
            limit,
        ) == unit_requests(repository, remote, local),
{
    reveal_with_fuel(SyncUnitView::requests_from, 5);
    let id = repository.repository_id;
    let fresh = repository.with_remote(remote).with_fresh_digest();
    let writes = reconciliation(remote.issues, local);
    let end = seq![
        SyncActionView::UpdateLastTrackTimestamp(id),
        SyncActionView::Finish(Ok(())),
    ];
    let begun = SyncUnitView::initial(repository);
    let changed = fresh.digest != repository.digest;
    let loading = SyncUnitView {
        phase: SyncPhase::LoadingIssues,
        repository: fresh,
        remote_issues: remote.issues,
        ..begun
    };
    let left = if changed {
        (limit - 2) as nat
    } else {
        (limit - 1) as nat
    };
    let listed = loading.next(SyncEventView::LocalIssues(Ok(local))).0;
    let from_loading = loading.requests_from(
        SyncActionView::GetRepositoryIssues(id),
        remote,
        local,
        left,
    );
    assert(from_loading == seq![SyncActionView::GetRepositoryIssues(id)] + write_requests(
        id,
        writes,
    ) + end) by {
        if writes.len() > 0 {
            lemma_requests_while_writing(listed, remote, local, (left - 1) as nat);
            assert(write_requests(id, writes).skip(0) =~= write_requests(id, writes));
        } else {
            assert(write_requests(id, writes) =~= Seq::<SyncActionView>::empty());
            assert(seq![SyncActionView::GetRepositoryIssues(id)] + write_requests(id, writes)
                + end =~= seq![SyncActionView::GetRepositoryIssues(id)] + end);
        }
    }
    assert(begun.requests_from(
        SyncActionView::FetchRepository { url: repository.url },
        remote,
        local,
        limit,
    ) =~= unit_requests(repository, remote, local));
}

/// Idempotence, request by request.  Under the conditions of
/// [`lemma_second_sync_only_stamps`] the second unit asks for the fetch,
/// for the datastore's issues, for the stamp, and ends well: the stamp is its
/// only write to the datastore.
pub proof fn lemma_second_unit_requests(
    repository: RepositoryView,
    remote: RemoteRepositoryView,
    local: Seq<IssueView>,
    relisted: Seq<IssueView>,
)
    requires
        distinct_ids(remote.issues),
        all_digests_present(remote.issues),
        store_of(relisted) == apply_writes(store_of(local), reconciliation(remote.issues, local)),
    ensures
        ({
            let synced = repository.with_remote(remote).with_fresh_digest();
            unit_requests(synced, remote, relisted) == seq![
                SyncActionView::FetchRepository { url: repository.url },
                SyncActionView::GetRepositoryIssues(repository.repository_id),
                SyncActionView::UpdateLastTrackTimestamp(repository.repository_id),
                SyncActionView::Finish(Ok(())),
            ]
        }),
{
    let synced = repository.with_remote(remote).with_fresh_digest();
    lemma_second_reconciliation_is_empty(remote.issues, local, relisted);
    assert(write_requests(synced.repository_id, reconciliation(remote.issues, relisted))
        =~= Seq::<SyncActionView>::empty());
    assert(unit_requests(synced, remote, relisted) =~= seq![
        SyncActionView::FetchRepository { url: repository.url },
        SyncActionView::GetRepositoryIssues(repository.repository_id),
        SyncActionView::UpdateLastTrackTimestamp(repository.repository_id),
        SyncActionView::Finish(Ok(())),
    ]);
}

/// One unit of work: the synchronisation of one repository.
pub struct SyncUnit {
    phase: SyncPhase,
    repository: Repository,
    remote_issues: Vec<Issue>,
    writes: Vec<IssueWrite>,
    asked: usize,
}

impl View for SyncUnit {
    type V = SyncUnitView;

    closed spec fn view(&self) -> SyncUnitView {
        SyncUnitView {
            phase: self.phase,
            repository: self.repository@,
            remote_issues: self.remote_issues.deep_view(),
            writes: self.writes.deep_view(),
            asked: self.asked as nat,
        }
    }
}

impl SyncUnit {
    /// Begins the synchronisation of a repository: the first request is for
    /// its upstream state.
    pub fn start(repository: Repository) -> (begun: (SyncUnit, SyncAction))
        ensures
            begun.0@ == SyncUnitView::initial(repository@),
            begun.0@.inv(),
            begun.1@ == (SyncActionView::FetchRepository { url: repository@.url }),
    {
        let url = repository.url.clone();
        let unit = SyncUnit {
            phase: SyncPhase::Fetching,
            repository,
            remote_issues: Vec::new(),
            writes: Vec::new(),
            asked: 0,
        };
        proof {
            assert(unit.remote_issues.deep_view() =~= Seq::<IssueView>::empty());
            assert(unit.writes.deep_view() =~= Seq::<IssueWriteView>::empty());
        }
        (unit, SyncAction::FetchRepository { url })
    }

    /// Ends the unit with the given result.
    fn finish(&mut self, result: Result<(), TrackError>) -> (action: Option<SyncAction>)
        ensures
            (final(self)@, action_view(action)) == old(self)@.finish(
                match result {
                    Ok(()) => Ok(()),
                    Err(cause) => Err(cause@),
                },
            ),
    {
        self.phase = SyncPhase::Done;
        Some(SyncAction::Finish(result))
    }

    /// Goes on to ask for the datastore's issues.
    fn load_issues(&mut self) -> (action: Option<SyncAction>)
        ensures
            (final(self)@, action_view(action)) == old(self)@.load_issues(),
    {
        self.phase = SyncPhase::LoadingIssues;
        Some(SyncAction::GetRepositoryIssues(self.repository.repository_id))
    }

    /// Asks for the next issue write, or for the stamp where all writes have
    /// been asked for.
    fn next_write(&mut self) -> (action: Option<SyncAction>)
        ensures
            (final(self)@, action_view(action)) == old(self)@.next_write(),
    {
        if self.asked < self.writes.len() {
            assert(self.writes.deep_view()[self.asked as int] == self.writes[self.asked as int]@);
            let action = match &self.writes[self.asked] {
                IssueWrite::Register(issue) => SyncAction::RegisterIssue(
                    self.repository.repository_id,
                    issue.duplicate(),
                ),
                IssueWrite::Unregister(issue_id) => SyncAction::UnregisterIssue(*issue_id),
            };
            self.phase = SyncPhase::WritingIssues;
            self.asked = self.asked + 1;
            Some(action)
        } else {
            self.phase = SyncPhase::Stamping;
            Some(SyncAction::UpdateLastTrackTimestamp(self.repository.repository_id))
        }
    }

    /// Takes the upstream state over and asks for what follows from it.
    fn fetched(&mut self, remote: RemoteRepository) -> (action: Option<SyncAction>)
        requires
            old(self)@.inv(),
            all_digests_present(remote@.issues),
        ensures
            (final(self)@, action_view(action)) == old(self)@.fetched(remote@),
            final(self)@.inv(),
    {
        match self.repository.update_gh_data(&remote) {
            Err(e) => self.finish(Err(e)),
            Ok(changed) => {
                self.remote_issues = remote.issues;
                if changed {
                    self.phase = SyncPhase::WritingMetadata;
                    Some(SyncAction::UpdateRepositoryMetadata(self.repository.duplicate()))
                } else {
                    self.load_issues()
                }
            },
        }
    }

    /// Takes an event and says what is to be done next, if anything.  The
    /// open issues that were fetched must each carry their digest.
    pub fn step(&mut self, event: SyncEvent) -> (action: Option<SyncAction>)
        requires
            old(self)@.inv(),
            event@ matches SyncEventView::Fetched(Ok(remote)) ==> all_digests_present(
                remote.issues,
            ),
        ensures
            final(self)@.inv(),
            (final(self)@, action_view(action)) == old(self)@.next(event@),
    {
        match event {
            SyncEvent::Fetched(answer) => {
                if self.phase == SyncPhase::Fetching {
                    match answer {
                        Err(cause) => self.finish(Err(TrackError::FetchFailed(cause))),
                        Ok(remote) => self.fetched(remote),
                    }
                } else {
                    None
                }
            },
            SyncEvent::LocalIssues(answer) => {
                if self.phase == SyncPhase::LoadingIssues {
                    match answer {
                        Err(cause) => self.finish(Err(TrackError::DatastoreWriteFailed(cause))),
                        Ok(local) => {
                            self.writes = reconcile_issues(&self.remote_issues, &local);
                            self.asked = 0;
                            self.next_write()
                        },
                    }
                } else {
                    None
                }
            },
            SyncEvent::Stored(answer) => {
                match answer {
                    Err(cause) => {
                        if self.phase == SyncPhase::WritingMetadata || self.phase
                            == SyncPhase::WritingIssues || self.phase == SyncPhase::Stamping {
                            self.finish(Err(TrackError::DatastoreWriteFailed(cause)))
                        } else {
                            None
                        }
                    },
                    Ok(()) => {
                        if self.phase == SyncPhase::WritingMetadata {
                            self.load_issues()
                        } else if self.phase == SyncPhase::WritingIssues {
                            self.next_write()
                        } else if self.phase == SyncPhase::Stamping {
                            self.finish(Ok(()))
                        } else {
                            None
                        }
                    },
                }
            },
        }
    }

    /// Where the unit stands.
    pub fn phase(&self) -> (phase: SyncPhase)
        ensures
            phase == self@.phase,
    {
        self.phase
    }

    /// The repository as the unit holds it.
    pub fn repository(&self) -> (repository: &Repository)
        ensures
            repository@ == self@.repository,
    {
        &self.repository
    }
}

} // verus!
