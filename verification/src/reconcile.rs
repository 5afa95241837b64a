//! The issue reconciler: what has to be written so that the datastore's
//! issues of a repository become the open issues upstream.
//!
//! Both collections are keyed by the issue's identifier.  A remote issue is
//! registered where the datastore does not know it, knows it without a
//! digest, or knows it under another digest; a local issue is unregistered
//! where it is no longer open upstream; everything else is left alone.

use crate::model::{same_optional_text, Issue, IssueView};
use vstd::prelude::*;

verus! {

/// One write to the datastore's issues.
#[derive(Debug, PartialEq)]
pub enum IssueWrite {
    /// Insert the issue, or replace the one stored under its identifier.
    Register(Issue),
    /// Delete the issue stored under this identifier.
    Unregister(i64),
}

/// An [`IssueWrite`] with its texts as sequences of characters.
pub enum IssueWriteView {
    Register(IssueView),
    Unregister(i64),
}

impl View for IssueWrite {
    type V = IssueWriteView;

    open spec fn view(&self) -> IssueWriteView {
        match self {
            IssueWrite::Register(issue) => IssueWriteView::Register(issue@),
            IssueWrite::Unregister(issue_id) => IssueWriteView::Unregister(*issue_id),
        }
    }
}

impl DeepView for IssueWrite {
    type V = IssueWriteView;

    open spec fn deep_view(&self) -> IssueWriteView {
        self@
    }
}

/// The place of the first issue with the given identifier, if there is one.
pub open spec fn index_of_issue(issues: Seq<IssueView>, issue_id: i64) -> Option<int>
    decreases issues.len(),
{
    if issues.len() == 0 {
        None
    } else if issues[0].issue_id == issue_id {
        Some(0)
    } else {
        match index_of_issue(issues.drop_first(), issue_id) {
            None => None,
            Some(i) => Some(i + 1),
        }
    }
}

/// The digest stored with the first issue of the given identifier; `None`
/// where no issue has the identifier.
pub open spec fn digest_of_issue(issues: Seq<IssueView>, issue_id: i64) -> Option<Seq<char>> {
    match index_of_issue(issues, issue_id) {
        None => None,
        Some(i) => issues[i].digest,
    }
}

/// Whether every issue of a collection carries a digest.
pub open spec fn all_digests_present(issues: Seq<IssueView>) -> bool {
    forall|i: int| 0 <= i < issues.len() ==> (#[trigger] issues[i]).digest is Some
}

/// Whether a remote issue has to be written: the datastore does not know
/// it, knows it without a digest, or knows it under another digest.
pub open spec fn is_outdated(issue: IssueView, local: Seq<IssueView>) -> bool {
    match index_of_issue(local, issue.issue_id) {
        None => true,
        Some(i) => local[i].digest is None || local[i].digest != issue.digest,
    }
}

/// The registrations that the remote issues call for, in their order.
pub open spec fn registrations(remote: Seq<IssueView>, local: Seq<IssueView>) -> Seq<
    IssueWriteView,
>
    decreases remote.len(),
{
    if remote.len() == 0 {
        Seq::empty()
    } else if is_outdated(remote.last(), local) {
        registrations(remote.drop_last(), local).push(IssueWriteView::Register(remote.last()))
    } else {
        registrations(remote.drop_last(), local)
    }
}

/// The removals of the local issues that are gone upstream, in their
/// order.
pub open spec fn removals(local: Seq<IssueView>, remote: Seq<IssueView>) -> Seq<IssueWriteView>
    decreases local.len(),
{
    if local.len() == 0 {
        Seq::empty()
    } else if index_of_issue(remote, local.last().issue_id) is None {
        removals(local.drop_last(), remote).push(
            IssueWriteView::Unregister(local.last().issue_id),
        )
    } else {
        removals(local.drop_last(), remote)
    }
}

/// All writes of one reconciliation: the registrations, then the removals.
pub open spec fn reconciliation(remote: Seq<IssueView>, local: Seq<IssueView>) -> Seq<
    IssueWriteView,
> {
    registrations(remote, local) + removals(local, remote)
}

/// Where an issue stands in a collection: at the first place that has its
/// identifier, and nowhere if none has.
pub proof fn lemma_index_of_issue(issues: Seq<IssueView>, issue_id: i64)
    ensures
        match index_of_issue(issues, issue_id) {
            None => forall|k: int|
                0 <= k < issues.len() ==> (#[trigger] issues[k]).issue_id != issue_id,
            Some(i) => 0 <= i < issues.len() && issues[i].issue_id == issue_id && forall|k: int|
                0 <= k < i ==> (#[trigger] issues[k]).issue_id != issue_id,
        },
    decreases issues.len(),
{
    if issues.len() > 0 && issues[0].issue_id != issue_id {
        let rest = issues.drop_first();
        lemma_index_of_issue(rest, issue_id);
        match index_of_issue(rest, issue_id) {
            None => {
                assert forall|k: int| 0 <= k < issues.len() implies (
                #[trigger] issues[k]).issue_id != issue_id by {
                    if k > 0 {
                        assert(issues[k] == rest[k - 1]);
                    }
                }
            },
            Some(i) => {
                assert(issues[i + 1] == rest[i]);
                assert forall|k: int| 0 <= k < i + 1 implies (#[trigger] issues[k]).issue_id
                    != issue_id by {
                    if k > 0 {
                        assert(issues[k] == rest[k - 1]);
                    }
                }
            },
        }
    }
}

/// The place of the first issue with the given identifier, if there is one.
pub fn find_issue_index(issue_id: i64, issues: &[Issue]) -> (place: Option<usize>)
    ensures
        match place {
            None => index_of_issue(issues.deep_view(), issue_id) is None,
            Some(i) => index_of_issue(issues.deep_view(), issue_id) == Some(i as int) && i
                < issues.len(),
        },
{
    let mut i: usize = 0;
    while i < issues.len()
        invariant
            i <= issues.len(),
            forall|k: int| 0 <= k < i ==> (#[trigger] issues.deep_view()[k]).issue_id != issue_id,
        decreases issues.len() - i,
    {
        if issues[i].issue_id == issue_id {
            proof {
                let listed = issues.deep_view();
                assert(listed[i as int].issue_id == issue_id);
                lemma_index_of_issue(listed, issue_id);
                match index_of_issue(listed, issue_id) {
                    None => {},
                    Some(first) => {
                        if first < i {
                            assert(listed[first].issue_id != issue_id);
                        }
                    },
                }
            }
            return Some(i);
        }
        assert(issues.deep_view()[i as int].issue_id != issue_id);
        i = i + 1;
    }
    proof {
        lemma_index_of_issue(issues.deep_view(), issue_id);
    }
    None
}

/// Finds an issue in a collection and returns its digest; `None` where the
/// collection has no issue of that identifier.  The issue that is found
/// must carry a digest.
pub fn find_issue(issue_id: i64, issues: &[Issue]) -> (digest: Option<String>)
    requires
        index_of_issue(issues.deep_view(), issue_id) matches Some(i) ==> issues.deep_view()[i].digest
            is Some,
    ensures
        digest.deep_view() == digest_of_issue(issues.deep_view(), issue_id),
        digest is Some <==> index_of_issue(issues.deep_view(), issue_id) is Some,
{
    match find_issue_index(issue_id, issues) {
        None => None,
        Some(i) => {
            assert(issues.deep_view()[i as int] == issues[i as int]@);
            match &issues[i].digest {
                Some(digest) => Some(digest.clone()),
                None => None,
            }
        },
    }
}

/// Whether every issue of a collection carries a digest.
pub fn has_all_digests(issues: &Vec<Issue>) -> (all: bool)
    ensures
        all == all_digests_present(issues.deep_view()),
{
    let mut i: usize = 0;
    while i < issues.len()
        invariant
            i <= issues.len(),
            forall|k: int| 0 <= k < i ==> (#[trigger] issues.deep_view()[k]).digest is Some,
        decreases issues.len() - i,
    {
        if issues[i].digest.is_none() {
            assert(issues.deep_view()[i as int].digest is None);
            return false;
        }
        assert(issues.deep_view()[i as int].digest is Some);
        i = i + 1;
    }
    true
}

/// Whether a remote issue has to be written.
pub fn needs_registration(issue: &Issue, local: &Vec<Issue>) -> (outdated: bool)
    ensures
        outdated == is_outdated(issue@, local.deep_view()),
{
    let listed = local.as_slice();
    assert(listed.deep_view() =~= local.deep_view());
    match find_issue_index(issue.issue_id, listed) {
        None => true,
        Some(i) => {
            assert(local.deep_view()[i as int] == local[i as int]@);
            local[i].digest.is_none() || !same_optional_text(&local[i].digest, &issue.digest)
        },
    }
}

/// The writes that bring the datastore's issues in line with the open
/// issues upstream: a registration for every remote issue that has to be
/// written, in the order of the remote issues, then a removal for every
/// local issue that is gone upstream, in the order of the local issues.
/// Every remote issue must carry its digest.
pub fn reconcile_issues(remote: &Vec<Issue>, local: &Vec<Issue>) -> (writes: Vec<IssueWrite>)
    requires
        all_digests_present(remote.deep_view()),
    ensures
        writes.deep_view() == reconciliation(remote.deep_view(), local.deep_view()),
{
    let ghost upstream = remote.deep_view();
    let ghost stored = local.deep_view();
    let mut writes: Vec<IssueWrite> = Vec::new();
    assert(upstream.take(0) =~= Seq::empty());
    assert(writes.deep_view() =~= Seq::empty());
    let mut i: usize = 0;
    while i < remote.len()
        invariant
            i <= remote.len(),
            upstream == remote.deep_view(),
            stored == local.deep_view(),
            writes.deep_view() == registrations(upstream.take(i as int), stored),
        decreases remote.len() - i,
    {
        let ghost listed = writes.deep_view();
        assert(upstream.take(i + 1).drop_last() =~= upstream.take(i as int));
        assert(upstream.take(i + 1).last() == remote[i as int]@);
        if needs_registration(&remote[i], local) {
            writes.push(IssueWrite::Register(remote[i].duplicate()));
            assert(writes.deep_view() =~= listed.push(IssueWriteView::Register(remote[i as int]@)));
        }
        i = i + 1;
    }
    assert(upstream.take(remote.len() as int) =~= upstream);
    let ghost registered = writes.deep_view();
    assert(stored.take(0) =~= Seq::empty());
    assert(registered + Seq::<IssueWriteView>::empty() =~= registered);
    let mut j: usize = 0;
    while j < local.len()
        invariant
            j <= local.len(),
            upstream == remote.deep_view(),
            stored == local.deep_view(),
            all_digests_present(upstream),
            registered == registrations(upstream, stored),
            writes.deep_view() == registered + removals(stored.take(j as int), upstream),
        decreases local.len() - j,
    {
        let ghost listed = writes.deep_view();
        let ghost issue_id = local[j as int].issue_id;
        assert(stored.take(j + 1).drop_last() =~= stored.take(j as int));
        assert(stored.take(j + 1).last() == local[j as int]@);
        let open = remote.as_slice();
        proof {
            lemma_index_of_issue(upstream, issue_id);
            assert(open.deep_view() =~= upstream);
        }
        if find_issue(local[j].issue_id, open).is_none() {
            writes.push(IssueWrite::Unregister(local[j].issue_id));
            assert(writes.deep_view() =~= listed.push(IssueWriteView::Unregister(issue_id)));
            assert(writes.deep_view() =~= registered + removals(stored.take(j + 1), upstream));
        }
        j = j + 1;
    }
    assert(stored.take(local.len() as int) =~= stored);
    writes
}

} // verus!
