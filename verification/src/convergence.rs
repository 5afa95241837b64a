//! What reconciliation achieves, stated over a model of the datastore: a
//! map from issue identifiers to issues.

use crate::model::IssueView;
use crate::reconcile::{
    all_digests_present, index_of_issue, is_outdated, lemma_index_of_issue, reconciliation,
    registrations, removals, IssueWriteView,
};
use vstd::prelude::*;

verus! {

/// Whether no two issues of a collection share an identifier.
pub open spec fn distinct_ids(issues: Seq<IssueView>) -> bool {
    forall|i: int, j: int|
        0 <= i < j < issues.len() ==> (#[trigger] issues[i]).issue_id != (
        #[trigger] issues[j]).issue_id
}

/// The datastore that holds exactly the issues of a collection, each under
/// its identifier.
pub open spec fn store_of(issues: Seq<IssueView>) -> Map<i64, IssueView> {
    Map::new(
        |issue_id: i64| index_of_issue(issues, issue_id) is Some,
        |issue_id: i64| issues[index_of_issue(issues, issue_id)->0],
    )
}

/// The datastore after one write.
pub open spec fn apply_write(store: Map<i64, IssueView>, write: IssueWriteView) -> Map<
    i64,
    IssueView,
> {
    match write {
        IssueWriteView::Register(issue) => store.insert(issue.issue_id, issue),
        IssueWriteView::Unregister(issue_id) => store.remove(issue_id),
    }
}

/// The datastore after a series of writes, made in order.
pub open spec fn apply_writes(store: Map<i64, IssueView>, writes: Seq<IssueWriteView>) -> Map<
    i64,
    IssueView,
>
    decreases writes.len(),
{
    if writes.len() == 0 {
        store
    } else {
        apply_write(apply_writes(store, writes.drop_last()), writes.last())
    }
}

/// An issue that stands at a place before which no issue has its
/// identifier is the one found under that identifier.
pub proof fn lemma_index_of_first(issues: Seq<IssueView>, place: int)
    requires
        0 <= place < issues.len(),
        forall|k: int| 0 <= k < place ==> (#[trigger] issues[k]).issue_id != issues[place].issue_id,
    ensures
        index_of_issue(issues, issues[place].issue_id) == Some(place),
{
    let issue_id = issues[place].issue_id;
    lemma_index_of_issue(issues, issue_id);
    match index_of_issue(issues, issue_id) {
        None => {
            assert(issues[place].issue_id != issue_id);
        },
        Some(first) => {
            if first < place {
                assert(issues[first].issue_id != issue_id);
            }
        },
    }
}

/// Writes made one series after another are the writes of both series in
/// one.
pub proof fn lemma_apply_writes_concat(
    store: Map<i64, IssueView>,
    first: Seq<IssueWriteView>,
    second: Seq<IssueWriteView>,
)
    ensures
        apply_writes(store, first + second) == apply_writes(apply_writes(store, first), second),
    decreases second.len(),
{
    if second.len() == 0 {
        assert(first + second =~= first);
    } else {
        assert((first + second).drop_last() =~= first + second.drop_last());
        assert((first + second).last() == second.last());
        lemma_apply_writes_concat(store, first, second.drop_last());
    }
}

/// Whether reconciliation registers an issue under the given identifier.
pub open spec fn is_registered(remote: Seq<IssueView>, local: Seq<IssueView>, issue_id: i64) -> bool {
    index_of_issue(remote, issue_id) matches Some(k) && is_outdated(remote[k], local)
}

/// Whether reconciliation removes the issue under the given identifier.
pub open spec fn is_removed(local: Seq<IssueView>, remote: Seq<IssueView>, issue_id: i64) -> bool {
    index_of_issue(local, issue_id) is Some && index_of_issue(remote, issue_id) is None
}

/// After the registrations the datastore holds every outdated remote issue
/// as it is upstream, and everything else as before.
pub proof fn lemma_registrations(
    store: Map<i64, IssueView>,
    remote: Seq<IssueView>,
    local: Seq<IssueView>,
)
    requires
        distinct_ids(remote),
    ensures
        forall|issue_id: i64| #[trigger]
            apply_writes(store, registrations(remote, local)).contains_key(issue_id) <==> (
            store.contains_key(issue_id) || is_registered(remote, local, issue_id)),
        forall|issue_id: i64|
            is_registered(remote, local, issue_id) ==> #[trigger] apply_writes(
                store,
                registrations(remote, local),
            )[issue_id] == remote[index_of_issue(remote, issue_id)->0],
        forall|issue_id: i64|
            !is_registered(remote, local, issue_id) ==> #[trigger] apply_writes(
                store,
                registrations(remote, local),
            )[issue_id] == store[issue_id],
    decreases remote.len(),
{
    if remote.len() > 0 {
        let before = remote.drop_last();
        let last = remote.last();
        assert(distinct_ids(before)) by {
            assert forall|i: int, j: int| 0 <= i < j < before.len() implies (
            #[trigger] before[i]).issue_id != (#[trigger] before[j]).issue_id by {
                assert(before[i] == remote[i]);
                assert(before[j] == remote[j]);
            }
        }
        lemma_registrations(store, before, local);
        let after_before = apply_writes(store, registrations(before, local));
        let after = apply_writes(store, registrations(remote, local));
        if is_outdated(last, local) {
            let pushed = registrations(before, local).push(IssueWriteView::Register(last));
            assert(pushed.drop_last() =~= registrations(before, local));
            assert(after == after_before.insert(last.issue_id, last));
        } else {
            assert(after == after_before);
        }
        assert forall|issue_id: i64|
            is_registered(remote, local, issue_id) == (is_registered(before, local, issue_id) || (
            issue_id == last.issue_id && is_outdated(last, local))) && (is_registered(
                before,
                local,
                issue_id,
            ) ==> issue_id != last.issue_id && remote[index_of_issue(remote, issue_id)->0]
                == before[index_of_issue(before, issue_id)->0]) && (issue_id == last.issue_id
                ==> index_of_issue(remote, issue_id) == Some(remote.len() - 1)) by {
            lemma_index_of_issue(before, issue_id);
            lemma_index_of_issue(remote, issue_id);
            match index_of_issue(before, issue_id) {
                Some(k) => {
                    assert(before[k] == remote[k]);
                    assert(remote[k].issue_id != remote[remote.len() - 1].issue_id);
                    assert forall|m: int| 0 <= m < k implies (#[trigger] remote[m]).issue_id
                        != remote[k].issue_id by {
                        assert(remote[m] == before[m]);
                    }
                    lemma_index_of_first(remote, k);
                },
                None => {
                    if issue_id == last.issue_id {
                        assert forall|m: int| 0 <= m < remote.len() - 1 implies (
                        #[trigger] remote[m]).issue_id != issue_id by {
                            assert(remote[m] == before[m]);
                        }
                        lemma_index_of_first(remote, remote.len() - 1);
                    } else {
                        match index_of_issue(remote, issue_id) {
                            Some(k) => {
                                if k < remote.len() - 1 {
                                    assert(before[k] == remote[k]);
                                }
                            },
                            None => {},
                        }
                    }
                },
            }
        }
        assert forall|issue_id: i64| #[trigger]
            after.contains_key(issue_id) <==> (store.contains_key(issue_id) || is_registered(
                remote,
                local,
                issue_id,
            )) by {
            assert(after_before.contains_key(issue_id) <==> (store.contains_key(issue_id)
                || is_registered(before, local, issue_id)));
        }
        assert forall|issue_id: i64| is_registered(remote, local, issue_id) implies #[trigger]
            after[issue_id] == remote[index_of_issue(remote, issue_id)->0] by {
            if is_registered(before, local, issue_id) {
                assert(after_before[issue_id] == before[index_of_issue(before, issue_id)->0]);
            }
        }
        assert forall|issue_id: i64| !is_registered(remote, local, issue_id) implies #[trigger]
            after[issue_id] == store[issue_id] by {
            assert(after_before[issue_id] == store[issue_id]);
        }
    }
}

/// After the removals the datastore holds what it held, less the local
/// issues that are gone upstream.
pub proof fn lemma_removals(
    store: Map<i64, IssueView>,
    local: Seq<IssueView>,
    remote: Seq<IssueView>,
)
    ensures
        forall|issue_id: i64| #[trigger]
            apply_writes(store, removals(local, remote)).contains_key(issue_id) <==> (
            store.contains_key(issue_id) && !is_removed(local, remote, issue_id)),
        forall|issue_id: i64| #[trigger]
            apply_writes(store, removals(local, remote)).contains_key(issue_id) ==> apply_writes(
                store,
                removals(local, remote),
            )[issue_id] == store[issue_id],
    decreases local.len(),
{
    if local.len() > 0 {
        let before = local.drop_last();
        let last = local.last();
        lemma_removals(store, before, remote);
        let after_before = apply_writes(store, removals(before, remote));
        let after = apply_writes(store, removals(local, remote));
        if index_of_issue(remote, last.issue_id) is None {
            let pushed = removals(before, remote).push(IssueWriteView::Unregister(last.issue_id));
            assert(pushed.drop_last() =~= removals(before, remote));
            assert(after == after_before.remove(last.issue_id));
        } else {
            assert(after == after_before);
        }
        assert forall|issue_id: i64|
            index_of_issue(local, issue_id) is Some <==> (index_of_issue(before, issue_id) is Some
                || issue_id == last.issue_id) by {
            lemma_index_of_issue(before, issue_id);
            lemma_index_of_issue(local, issue_id);
            match index_of_issue(local, issue_id) {
                Some(k) => {
                    if k < local.len() - 1 {
                        assert(before[k] == local[k]);
                    }
                },
                None => {
                    assert(local[local.len() - 1].issue_id != issue_id);
                    match index_of_issue(before, issue_id) {
                        Some(k) => {
                            assert(before[k] == local[k]);
                        },
                        None => {},
                    }
                },
            }
        }
        assert forall|issue_id: i64| #[trigger]
            after.contains_key(issue_id) <==> (store.contains_key(issue_id) && !is_removed(
                local,
                remote,
                issue_id,
            )) by {
            assert(after_before.contains_key(issue_id) <==> (store.contains_key(issue_id)
                && !is_removed(before, remote, issue_id)));
        }
        assert forall|issue_id: i64| #[trigger] after.contains_key(issue_id) implies after[issue_id]
            == store[issue_id] by {
            assert(after_before.contains_key(issue_id));
        }
    }
}

/// Reconciliation completeness.  Let the remote issues have distinct
/// identifiers.  After the writes of a reconciliation the datastore holds an
/// issue under exactly the identifiers that are open upstream, so that no
/// local issue that is gone upstream remains.  An issue that had to be
/// written is held as it is upstream; any other is held as before, and its
/// digest is the one upstream.
pub proof fn lemma_reconciliation_converges(remote: Seq<IssueView>, local: Seq<IssueView>)
    requires
        distinct_ids(remote),
    ensures
        apply_writes(store_of(local), reconciliation(remote, local)).dom() == store_of(
            remote,
        ).dom(),
        forall|issue_id: i64| #[trigger]
            store_of(remote).contains_key(issue_id) ==> {
                let after = apply_writes(store_of(local), reconciliation(remote, local))[issue_id];
                let upstream = store_of(remote)[issue_id];
                &&& after.digest == upstream.digest
                &&& is_outdated(upstream, local) ==> after == upstream
                &&& !is_outdated(upstream, local) ==> after == store_of(local)[issue_id]
            },
{
    let start = store_of(local);
    let middle = apply_writes(start, registrations(remote, local));
    let end = apply_writes(start, reconciliation(remote, local));
    lemma_apply_writes_concat(start, registrations(remote, local), removals(local, remote));
    lemma_registrations(start, remote, local);
    lemma_removals(middle, local, remote);
    assert forall|issue_id: i64| end.contains_key(issue_id) <==> store_of(remote).contains_key(
        issue_id,
    ) by {
        lemma_index_of_issue(remote, issue_id);
        lemma_index_of_issue(local, issue_id);
        assert(middle.contains_key(issue_id) <==> (start.contains_key(issue_id) || is_registered(
            remote,
            local,
            issue_id,
        )));
        assert(end.contains_key(issue_id) <==> (middle.contains_key(issue_id) && !is_removed(
            local,
            remote,
            issue_id,
        )));
        match index_of_issue(remote, issue_id) {
            Some(k) => {
                assert(remote[k].issue_id == issue_id);
            },
            None => {},
        }
    }
    assert(end.dom() =~= store_of(remote).dom());
    assert forall|issue_id: i64| #[trigger] store_of(remote).contains_key(issue_id) implies {
        let after = end[issue_id];
        let upstream = store_of(remote)[issue_id];
        &&& after.digest == upstream.digest
        &&& is_outdated(upstream, local) ==> after == upstream
        &&& !is_outdated(upstream, local) ==> after == store_of(local)[issue_id]
    } by {
        lemma_index_of_issue(remote, issue_id);
        lemma_index_of_issue(local, issue_id);
        assert(end.contains_key(issue_id));
        assert(end[issue_id] == middle[issue_id]);
        let k = index_of_issue(remote, issue_id)->0;
        assert(remote[k].issue_id == issue_id);
        if is_registered(remote, local, issue_id) {
            assert(middle[issue_id] == remote[k]);
        } else {
            assert(middle[issue_id] == start[issue_id]);
        }
    }
}

/// No registration is called for where no remote issue is outdated.
pub proof fn lemma_no_registrations(remote: Seq<IssueView>, local: Seq<IssueView>)
    requires
        forall|k: int| 0 <= k < remote.len() ==> !is_outdated(#[trigger] remote[k], local),
    ensures
        registrations(remote, local) == Seq::<IssueWriteView>::empty(),
    decreases remote.len(),
{
    if remote.len() > 0 {
        let before = remote.drop_last();
        assert forall|k: int| 0 <= k < before.len() implies !is_outdated(
            #[trigger] before[k],
            local,
        ) by {
            assert(before[k] == remote[k]);
        }
        lemma_no_registrations(before, local);
        assert(!is_outdated(remote[remote.len() - 1], local));
    }
}

/// No removal is called for where every local issue is open upstream.
pub proof fn lemma_no_removals(local: Seq<IssueView>, remote: Seq<IssueView>)
    requires
        forall|k: int|
            0 <= k < local.len() ==> index_of_issue(remote, (#[trigger] local[k]).issue_id) is Some,
    ensures
        removals(local, remote) == Seq::<IssueWriteView>::empty(),
    decreases local.len(),
{
    if local.len() > 0 {
        let before = local.drop_last();
        assert forall|k: int| 0 <= k < before.len() implies index_of_issue(
            remote,
            (#[trigger] before[k]).issue_id,
        ) is Some by {
            assert(before[k] == local[k]);
        }
        lemma_no_removals(before, remote);
        assert(index_of_issue(remote, local[local.len() - 1].issue_id) is Some);
    }
}

/// Idempotence of reconciliation.  Let the remote issues have distinct
/// identifiers and carry their digests.  Once the writes of a reconciliation
/// have been made, a second reconciliation against the same remote issues
/// calls for no write at all, however the datastore lists its issues.
pub proof fn lemma_second_reconciliation_is_empty(
    remote: Seq<IssueView>,
    local: Seq<IssueView>,
    relisted: Seq<IssueView>,
)
    requires
        distinct_ids(remote),
        all_digests_present(remote),
        store_of(relisted) == apply_writes(store_of(local), reconciliation(remote, local)),
    ensures
        reconciliation(remote, relisted) == Seq::<IssueWriteView>::empty(),
{
    let held = store_of(relisted);
    lemma_reconciliation_converges(remote, local);
    assert forall|k: int| 0 <= k < remote.len() implies !is_outdated(
        #[trigger] remote[k],
        relisted,
    ) by {
        let issue_id = remote[k].issue_id;
        assert forall|m: int| 0 <= m < k implies (#[trigger] remote[m]).issue_id
            != remote[k].issue_id by {}
        lemma_index_of_first(remote, k);
        assert(store_of(remote).contains_key(issue_id));
        assert(store_of(remote)[issue_id] == remote[k]);
        assert(held.dom().contains(issue_id));
        assert(held.contains_key(issue_id));
        assert(held[issue_id].digest == remote[k].digest);
    }
    lemma_no_registrations(remote, relisted);
    assert forall|k: int| 0 <= k < relisted.len() implies index_of_issue(
        remote,
        (#[trigger] relisted[k]).issue_id,
    ) is Some by {
        let issue_id = relisted[k].issue_id;
        lemma_index_of_issue(relisted, issue_id);
        assert(held.contains_key(issue_id));
        assert(held.dom().contains(issue_id));
        assert(store_of(remote).dom().contains(issue_id));
        assert(store_of(remote).contains_key(issue_id));
    }
    lemma_no_removals(relisted, remote);
}

} // verus!
