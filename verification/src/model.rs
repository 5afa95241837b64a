//! The tracked entities: repositories and their open issues.

use crate::digest::{
    fingerprint, fingerprint_of, issue_encoding, repository_encoding, serialize_issue_fields,
    serialize_repository_fields,
};
use crate::error::TrackError;
use time::OffsetDateTime;
use uuid::Uuid;
use vstd::prelude::*;

verus! {

/// The identifier type of the `uuid` crate; identifiers are only passed on.
#[verifier::external_type_specification]
#[verifier::external_body]
pub struct ExUuid(Uuid);

/// The timestamp type of the `time` crate; timestamps are only passed on.
#[verifier::external_type_specification]
#[verifier::external_body]
pub struct ExOffsetDateTime(OffsetDateTime);

/// One tracked project, as the datastore last knew it.
#[derive(Debug, PartialEq)]
pub struct Repository {
    pub repository_id: Uuid,
    pub url: String,
    pub topics: Option<Vec<String>>,
    pub languages: Option<Vec<String>>,
    pub stars: Option<i32>,
    pub digest: Option<String>,
}

/// A [`Repository`] with its texts as sequences of characters.
pub struct RepositoryView {
    pub repository_id: Uuid,
    pub url: Seq<char>,
    pub topics: Option<Seq<Seq<char>>>,
    pub languages: Option<Seq<Seq<char>>>,
    pub stars: Option<i32>,
    pub digest: Option<Seq<char>>,
}

impl View for Repository {
    type V = RepositoryView;

    open spec fn view(&self) -> RepositoryView {
        RepositoryView {
            repository_id: self.repository_id,
            url: self.url@,
            topics: self.topics.deep_view(),
            languages: self.languages.deep_view(),
            stars: self.stars,
            digest: self.digest.deep_view(),
        }
    }
}

/// One open issue of a repository.
#[derive(Debug, PartialEq)]
pub struct Issue {
    pub issue_id: i64,
    pub title: String,
    pub url: String,
    pub number: i32,
    pub labels: Vec<String>,
    pub published_at: OffsetDateTime,
    pub digest: Option<String>,
}

/// An [`Issue`] with its texts as sequences of characters.
pub struct IssueView {
    pub issue_id: i64,
    pub title: Seq<char>,
    pub url: Seq<char>,
    pub number: i32,
    pub labels: Seq<Seq<char>>,
    pub published_at: OffsetDateTime,
    pub digest: Option<Seq<char>>,
}

impl View for Issue {
    type V = IssueView;

    open spec fn view(&self) -> IssueView {
        IssueView {
            issue_id: self.issue_id,
            title: self.title@,
            url: self.url@,
            number: self.number,
            labels: self.labels.deep_view(),
            published_at: self.published_at,
            digest: self.digest.deep_view(),
        }
    }
}

impl DeepView for Issue {
    type V = IssueView;

    open spec fn deep_view(&self) -> IssueView {
        self@
    }
}

impl DeepView for Repository {
    type V = RepositoryView;

    open spec fn deep_view(&self) -> RepositoryView {
        self@
    }
}

/// A copy of a list of texts.
pub fn duplicate_texts(texts: &Vec<String>) -> (copy: Vec<String>)
    ensures
        copy.deep_view() == texts.deep_view(),
{
    let mut copy: Vec<String> = Vec::new();
    let mut i: usize = 0;
    while i < texts.len()
        invariant
            i <= texts.len(),
            copy.len() == i,
            forall|k: int| 0 <= k < i ==> copy[k]@ == texts[k]@,
        decreases texts.len() - i,
    {
        copy.push(texts[i].clone());
        i = i + 1;
    }
    assert(copy.deep_view() =~= texts.deep_view());
    copy
}

/// A copy of an optional list of texts.
pub fn duplicate_optional_texts(texts: &Option<Vec<String>>) -> (copy: Option<Vec<String>>)
    ensures
        copy.deep_view() == texts.deep_view(),
{
    match texts {
        None => None,
        Some(texts) => Some(duplicate_texts(texts)),
    }
}

/// A copy of an optional text.
pub fn duplicate_optional_text(text: &Option<String>) -> (copy: Option<String>)
    ensures
        copy.deep_view() == text.deep_view(),
{
    match text {
        None => None,
        Some(text) => Some(text.clone()),
    }
}

/// Whether two optional texts are both absent or both present and equal.
pub fn same_optional_text(left: &Option<String>, right: &Option<String>) -> (same: bool)
    ensures
        same == (left.deep_view() == right.deep_view()),
{
    match (left, right) {
        (None, None) => true,
        (Some(left), Some(right)) => *left == *right,
        _ => false,
    }
}

impl Repository {
    /// A copy of the repository.
    pub fn duplicate(&self) -> (copy: Repository)
        ensures
            copy@ == self@,
    {
        Repository {
            repository_id: self.repository_id,
            url: self.url.clone(),
            topics: duplicate_optional_texts(&self.topics),
            languages: duplicate_optional_texts(&self.languages),
            stars: self.stars,
            digest: duplicate_optional_text(&self.digest),
        }
    }
}

impl Issue {
    /// A copy of the issue.
    pub fn duplicate(&self) -> (copy: Issue)
        ensures
            copy@ == self@,
    {
        Issue {
            issue_id: self.issue_id,
            title: self.title.clone(),
            url: self.url.clone(),
            number: self.number,
            labels: duplicate_texts(&self.labels),
            published_at: self.published_at,
            digest: duplicate_optional_text(&self.digest),
        }
    }
}

/// A repository's upstream state as the remote API delivered it.
#[derive(Debug, PartialEq)]
pub struct RemoteRepository {
    /// The topics; absent where the API gave no list, and an entry absent
    /// where it gave an empty node.
    pub topics: Option<Vec<Option<String>>>,
    /// The languages, delivered like the topics.
    pub languages: Option<Vec<Option<String>>>,
    /// The number of stars.
    pub stargazer_count: i64,
    /// Every open issue.
    pub issues: Vec<Issue>,
}

/// A [`RemoteRepository`] with its texts as sequences of characters.
pub struct RemoteRepositoryView {
    pub topics: Option<Seq<Option<Seq<char>>>>,
    pub languages: Option<Seq<Option<Seq<char>>>>,
    pub stargazer_count: i64,
    pub issues: Seq<IssueView>,
}

impl View for RemoteRepository {
    type V = RemoteRepositoryView;

    open spec fn view(&self) -> RemoteRepositoryView {
        RemoteRepositoryView {
            topics: self.topics.deep_view(),
            languages: self.languages.deep_view(),
            stargazer_count: self.stargazer_count,
            issues: self.issues.deep_view(),
        }
    }
}

/// The names that are present in a list of nodes, in order.
pub open spec fn present_names(nodes: Seq<Option<Seq<char>>>) -> Seq<Seq<char>>
    decreases nodes.len(),
{
    if nodes.len() == 0 {
        Seq::empty()
    } else {
        match nodes.last() {
            Some(name) => present_names(nodes.drop_last()).push(name),
            None => present_names(nodes.drop_last()),
        }
    }
}

/// The names of an optional list of nodes.
pub open spec fn optional_names(nodes: Option<Seq<Option<Seq<char>>>>) -> Option<Seq<Seq<char>>> {
    match nodes {
        None => None,
        Some(nodes) => Some(present_names(nodes)),
    }
}

/// The names that are present in a list of nodes, in order.
pub fn collect_names(nodes: &Vec<Option<String>>) -> (names: Vec<String>)
    ensures
        names.deep_view() == present_names(nodes.deep_view()),
{
    let mut names: Vec<String> = Vec::new();
    let mut i: usize = 0;
    assert(nodes.deep_view().take(0) =~= Seq::empty());
    assert(names.deep_view() =~= Seq::empty());
    while i < nodes.len()
        invariant
            i <= nodes.len(),
            names.deep_view() == present_names(nodes.deep_view().take(i as int)),
        decreases nodes.len() - i,
    {
        let ghost seen = nodes.deep_view().take(i as int);
        let ghost more = nodes.deep_view().take(i + 1);
        let ghost found = names.deep_view();
        assert(more.drop_last() =~= seen);
        assert(more.last() == nodes[i as int].deep_view());
        match &nodes[i] {
            Some(name) => {
                names.push(name.clone());
                assert(names.deep_view() =~= found.push(name@));
            },
            None => {},
        }
        i = i + 1;
    }
    assert(nodes.deep_view().take(nodes.len() as int) =~= nodes.deep_view());
    names
}

/// The names of an optional list of nodes.
pub fn collect_optional_names(nodes: &Option<Vec<Option<String>>>) -> (names: Option<Vec<String>>)
    ensures
        names.deep_view() == optional_names(nodes.deep_view()),
{
    match nodes {
        None => None,
        Some(nodes) => Some(collect_names(nodes)),
    }
}

impl RepositoryView {
    /// The fingerprint of the tracked fields: topics, languages and stars.
    pub open spec fn fingerprint(self) -> Seq<char> {
        fingerprint_of(repository_encoding(self.topics, self.languages, self.stars))
    }

    /// The repository with its tracked fields as fetched; the digest stays.
    pub open spec fn with_remote(self, remote: RemoteRepositoryView) -> RepositoryView {
        RepositoryView {
            topics: optional_names(remote.topics),
            languages: optional_names(remote.languages),
            stars: Some(remote.stargazer_count as i32),
            ..self
        }
    }

    /// The repository with the digest that fits its tracked fields.
    pub open spec fn with_fresh_digest(self) -> RepositoryView {
        RepositoryView { digest: Some(self.fingerprint()), ..self }
    }
}

impl IssueView {
    /// The fingerprint of the tracked fields: title and labels.
    pub open spec fn fingerprint(self) -> Seq<char> {
        fingerprint_of(issue_encoding(self.title, self.labels))
    }

    /// The issue with the digest that fits its tracked fields.
    pub open spec fn with_fresh_digest(self) -> IssueView {
        IssueView { digest: Some(self.fingerprint()), ..self }
    }
}

impl Repository {
    /// Overwrites the tracked fields with what was fetched: the names that
    /// are present among the topics and the languages, and the star count
    /// cut to 32 bits.  The digest is left as it is.
    pub fn overwrite_gh_data(&mut self, remote: &RemoteRepository)
        ensures
            final(self)@ == old(self)@.with_remote(remote@),
    {
        self.topics = collect_optional_names(&remote.topics);
        self.languages = collect_optional_names(&remote.languages);
        self.stars = Some(#[verifier::truncate] (remote.stargazer_count as i32));
    }

    /// Sets the digest from the encoding of the tracked fields, if there is
    /// one; without one the repository stays as it is and the failure is
    /// passed on.
    pub fn set_digest(&mut self, encoded: Result<Vec<u8>, Box<bincode::ErrorKind>>) -> (done: Result<
        (),
        TrackError,
    >)
        ensures
            encoded is Ok <==> done is Ok,
            done matches Err(e) ==> e is SerializationFailed && final(self)@ == old(self)@,
            encoded matches Ok(bytes) ==> final(self)@ == (RepositoryView {
                digest: Some(fingerprint_of(bytes@)),
                ..old(self)@
            }) && fingerprint_of(bytes@).len() == 64,
    {
        match encoded {
            Ok(bytes) => {
                self.digest = Some(fingerprint(&bytes));
                Ok(())
            },
            Err(_) => Err(TrackError::SerializationFailed),
        }
    }

    /// Brings the digest in line with the tracked fields: it becomes their
    /// fingerprint, 64 hexadecimal digits, and nothing else changes.  The
    /// tracked fields can always be encoded, so this succeeds.
    pub fn update_digest(&mut self) -> (done: Result<(), TrackError>)
        ensures
            done is Ok,
            final(self)@ == old(self)@.with_fresh_digest(),
            old(self)@.fingerprint().len() == 64,
    {
        let encoded = serialize_repository_fields(&self.topics, &self.languages, &self.stars);
        self.set_digest(encoded)
    }

    /// Takes over what was fetched, brings the digest in line with it, and
    /// says whether the tracked fields changed, that is whether the digest is
    /// another than before.  This succeeds on every fetched state.
    pub fn update_gh_data(&mut self, remote: &RemoteRepository) -> (changed: Result<
        bool,
        TrackError,
    >)
        ensures
            changed is Ok,
            final(self)@ == old(self)@.with_remote(remote@).with_fresh_digest(),
            changed matches Ok(changed) ==> changed == (final(self)@.digest != old(
                self,
            )@.digest),
    {
        self.overwrite_gh_data(remote);
        let previous = duplicate_optional_text(&self.digest);
        match self.update_digest() {
            Err(e) => Err(e),
            Ok(()) => Ok(!same_optional_text(&self.digest, &previous)),
        }
    }
}

impl Issue {
    /// Sets the digest from the encoding of the tracked fields, if there is
    /// one; without one the issue stays as it is.
    pub fn set_digest(&mut self, encoded: Result<Vec<u8>, Box<bincode::ErrorKind>>)
        ensures
            encoded is Err ==> final(self)@ == old(self)@,
            encoded matches Ok(bytes) ==> final(self)@ == (IssueView {
                digest: Some(fingerprint_of(bytes@)),
                ..old(self)@
            }) && fingerprint_of(bytes@).len() == 64,
    {
        match encoded {
            Ok(bytes) => {
                self.digest = Some(fingerprint(&bytes));
            },
            Err(_) => {},
        }
    }

    /// Brings the digest in line with the tracked fields: it becomes the
    /// fingerprint of title and labels, 64 hexadecimal digits, and nothing
    /// else changes.
    pub fn update_digest(&mut self)
        ensures
            final(self)@ == old(self)@.with_fresh_digest(),
            old(self)@.fingerprint().len() == 64,
    {
        let encoded = serialize_issue_fields(&self.title, &self.labels);
        self.set_digest(encoded)
    }
}

} // verus!
