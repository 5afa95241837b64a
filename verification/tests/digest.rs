use cloradar_tracker::digest::fingerprint;
use cloradar_tracker::error::TrackError;
use cloradar_tracker::model::{
    collect_names, collect_optional_names, duplicate_optional_text, duplicate_optional_texts,
    duplicate_texts, same_optional_text, Issue, RemoteRepository, Repository,
};
use time::OffsetDateTime;
use uuid::Uuid;

fn texts(items: &[&str]) -> Vec<String> {
    items.iter().map(|item| item.to_string()).collect()
}

fn repository(
    topics: Option<Vec<String>>,
    languages: Option<Vec<String>>,
    stars: Option<i32>,
) -> Repository {
    Repository {
        repository_id: Uuid::from_u128(7),
        url: "https://github.com/org/project".to_string(),
        topics,
        languages,
        stars,
        digest: None,
    }
}

fn issue(title: &str, labels: &[&str]) -> Issue {
    Issue {
        issue_id: 42,
        title: title.to_string(),
        url: "https://github.com/org/project/issues/5".to_string(),
        number: 5,
        labels: texts(labels),
        published_at: OffsetDateTime::UNIX_EPOCH,
        digest: None,
    }
}

fn remote(topics: &[&str], languages: &[&str], stars: i64) -> RemoteRepository {
    RemoteRepository {
        topics: Some(topics.iter().map(|t| Some(t.to_string())).collect()),
        languages: Some(languages.iter().map(|t| Some(t.to_string())).collect()),
        stargazer_count: stars,
        issues: Vec::new(),
    }
}

#[test]
fn fingerprint_of_no_bytes_is_the_hash_of_the_empty_input() {
    assert_eq!(
        fingerprint(&Vec::new()),
        "e3b0c44298fc1c149afbf4c8996fb92427ae41e4649b934ca495991b7852b855"
    );
}

#[test]
fn fingerprint_is_lower_case_hex_of_sha256() {
    assert_eq!(
        fingerprint(&vec![0x61, 0x62, 0x63]),
        "ba7816bf8f01cfea414140de5dae2223b00361a396177a9cb410ff61f20015ad"
    );
}

#[test]
fn fingerprint_has_64_hex_digits() {
    let digest = fingerprint(&vec![1, 2, 3, 255]);
    assert_eq!(digest.len(), 64);
    assert!(digest.chars().all(|c| c.is_ascii_digit() || ('a'..='f').contains(&c)));
}

#[test]
fn repository_digest_has_the_expected_value() {
    let mut repo = repository(Some(texts(&["rust", "verus"])), Some(texts(&["Rust"])), Some(10));
    assert_eq!(repo.update_digest(), Ok(()));
    assert_eq!(
        repo.digest.as_deref(),
        Some("039342ffc42cdfd964ae52b8ad21cf0e9af4e8d54ad4194f64ed7257e9300b6f")
    );
}

#[test]
fn repository_digest_of_absent_fields() {
    let mut repo = repository(None, None, None);
    assert_eq!(repo.update_digest(), Ok(()));
    assert_eq!(
        repo.digest.as_deref(),
        Some("709e80c88487a2411e1ee4dfb9f22a861492d20c4765150c0c794abd70f8147c")
    );
}

#[test]
fn repository_digest_tells_empty_topics_from_absent_topics() {
    let mut empty = repository(Some(Vec::new()), None, None);
    let mut absent = repository(None, None, None);
    empty.update_digest().unwrap();
    absent.update_digest().unwrap();
    assert_eq!(
        empty.digest.as_deref(),
        Some("fd1b99579c88a4f533613a38dd643f7bd7e6cf97feeac1c95a0d90e68d7ae3db")
    );
    assert_ne!(empty.digest, absent.digest);
}

#[test]
fn repository_digest_depends_on_field_order() {
    let mut one = repository(Some(texts(&["rust", "verus"])), Some(texts(&["Rust"])), Some(10));
    let mut other = repository(Some(texts(&["Rust"])), Some(texts(&["rust", "verus"])), Some(10));
    one.update_digest().unwrap();
    other.update_digest().unwrap();
    assert_eq!(
        other.digest.as_deref(),
        Some("f0e16d604f858c24b93b59c1ae2a2353bbcae1f7c561ed6f4177d89a02480c5f")
    );
    assert_ne!(one.digest, other.digest);
}

#[test]
fn repository_digest_of_negative_stars() {
    let mut repo = repository(None, None, Some(-1));
    repo.update_digest().unwrap();
    assert_eq!(
        repo.digest.as_deref(),
        Some("30543ed53278d4dc62dda332e84f015a50036b291ac0c757845015c0f1448cb0")
    );
}

#[test]
fn repository_digest_counts_bytes_not_characters() {
    let mut repo = repository(Some(texts(&["héllo", "日本"])), None, Some(0));
    repo.update_digest().unwrap();
    assert_eq!(
        repo.digest.as_deref(),
        Some("db8120fbcfc1f45acb84609042db9cab75f1feb7446c7d98c0ad32370956152c")
    );
}

#[test]
fn repository_digest_is_stable() {
    let mut first = repository(Some(texts(&["rust", "verus"])), Some(texts(&["Rust"])), Some(10));
    let mut second = repository(Some(texts(&["rust", "verus"])), Some(texts(&["Rust"])), Some(10));
    second.url = "https://github.com/org/renamed".to_string();
    second.repository_id = Uuid::from_u128(99);
    first.update_digest().unwrap();
    second.update_digest().unwrap();
    first.update_digest().unwrap();
    assert_eq!(first.digest, second.digest);
}

#[test]
fn repository_digest_changes_with_each_tracked_field() {
    let mut base = repository(Some(texts(&["rust", "verus"])), Some(texts(&["Rust"])), Some(10));
    let mut topics = repository(Some(texts(&["rust"])), Some(texts(&["Rust"])), Some(10));
    let mut languages = repository(Some(texts(&["rust", "verus"])), Some(texts(&["C"])), Some(10));
    let mut stars = repository(Some(texts(&["rust", "verus"])), Some(texts(&["Rust"])), Some(11));
    base.update_digest().unwrap();
    topics.update_digest().unwrap();
    languages.update_digest().unwrap();
    stars.update_digest().unwrap();
    assert_ne!(base.digest, topics.digest);
    assert_ne!(base.digest, languages.digest);
    assert_ne!(base.digest, stars.digest);
    assert_eq!(
        stars.digest.as_deref(),
        Some("e0ff1a25b4faa23cb9fcdb18202bbe78272c74dd44b16cf56e66a455ea403d68")
    );
}

#[test]
fn repository_set_digest_takes_the_encoding() {
    let mut repo = repository(None, None, None);
    assert_eq!(repo.set_digest(Ok(vec![0x61, 0x62, 0x63])), Ok(()));
    assert_eq!(
        repo.digest.as_deref(),
        Some("ba7816bf8f01cfea414140de5dae2223b00361a396177a9cb410ff61f20015ad")
    );
    assert_eq!(repo.topics, None);
    assert_eq!(repo.stars, None);
}

#[test]
fn repository_set_digest_passes_a_serialization_failure_on() {
    let mut repo = repository(Some(texts(&["a"])), None, Some(3));
    repo.digest = Some("before".to_string());
    let failed = repo.set_digest(Err(Box::new(bincode::ErrorKind::SizeLimit)));
    assert_eq!(failed, Err(TrackError::SerializationFailed));
    assert_eq!(repo.digest.as_deref(), Some("before"));
    assert_eq!(repo.topics, Some(texts(&["a"])));
    assert_eq!(repo.stars, Some(3));
}

#[test]
fn issue_digest_has_the_expected_value() {
    let mut open = issue("Fix the parser", &["bug", "good first issue"]);
    open.update_digest();
    assert_eq!(
        open.digest.as_deref(),
        Some("9ae16d2a541229d7132af65ba2ec01a1a69c97be77e3f9161097e80f40c26f2e")
    );
}

#[test]
fn issue_digest_without_labels() {
    let mut open = issue("Fix the parser", &[]);
    open.update_digest();
    assert_eq!(
        open.digest.as_deref(),
        Some("54441425606841b94bccc116248b88dff2f9cc65f5b7f62d143bcb4d9a1b0564")
    );
}

#[test]
fn issue_digest_covers_title_and_labels_only() {
    let mut one = issue("Fix the parser", &["bug", "good first issue"]);
    let mut other = issue("Fix the parser", &["bug", "good first issue"]);
    other.issue_id = 1;
    other.number = 77;
    other.url = "https://github.com/org/project/issues/77".to_string();
    other.published_at = OffsetDateTime::from_unix_timestamp(1_700_000_000).unwrap();
    one.update_digest();
    other.update_digest();
    assert_eq!(one.digest, other.digest);

    let mut retitled = issue("Fix the lexer", &["bug", "good first issue"]);
    retitled.update_digest();
    assert_eq!(
        retitled.digest.as_deref(),
        Some("75d076b726d45621d393728d53fd66d906148e14ccd0749438474c28bc91a832")
    );
    assert_ne!(one.digest, retitled.digest);
}

#[test]
fn issue_set_digest_leaves_the_digest_on_failure() {
    let mut open = issue("Fix the parser", &["bug"]);
    open.digest = Some("before".to_string());
    open.set_digest(Err(Box::new(bincode::ErrorKind::SizeLimit)));
    assert_eq!(open.digest.as_deref(), Some("before"));
    open.set_digest(Ok(Vec::new()));
    assert_eq!(
        open.digest.as_deref(),
        Some("e3b0c44298fc1c149afbf4c8996fb92427ae41e4649b934ca495991b7852b855")
    );
    assert_eq!(open.title, "Fix the parser");
}

#[test]
fn names_that_are_present_are_collected_in_order() {
    let nodes = vec![Some("a".to_string()), None, Some("b".to_string()), None];
    assert_eq!(collect_names(&nodes), texts(&["a", "b"]));
    assert_eq!(collect_names(&Vec::new()), Vec::<String>::new());
    assert_eq!(collect_names(&vec![None, None]), Vec::<String>::new());
}

#[test]
fn an_absent_list_of_nodes_gives_no_names() {
    assert_eq!(collect_optional_names(&None), None);
    assert_eq!(collect_optional_names(&Some(Vec::new())), Some(Vec::new()));
    assert_eq!(
        collect_optional_names(&Some(vec![None, Some("x".to_string())])),
        Some(texts(&["x"]))
    );
}

#[test]
fn overwrite_takes_the_fetched_fields_and_keeps_the_digest() {
    let mut repo = repository(None, None, None);
    repo.digest = Some("abc".to_string());
    let fetched = RemoteRepository {
        topics: Some(vec![Some("a".to_string()), None, Some("b".to_string())]),
        languages: None,
        stargazer_count: 5,
        issues: Vec::new(),
    };
    repo.overwrite_gh_data(&fetched);
    assert_eq!(repo.topics, Some(texts(&["a", "b"])));
    assert_eq!(repo.languages, None);
    assert_eq!(repo.stars, Some(5));
    assert_eq!(repo.digest.as_deref(), Some("abc"));
    assert_eq!(repo.url, "https://github.com/org/project");
}

#[test]
fn star_count_is_cut_to_32_bits() {
    let mut repo = repository(None, None, None);
    let mut fetched = remote(&[], &[], (1i64 << 32) + 5);
    fetched.topics = None;
    fetched.languages = None;
    assert_eq!(repo.update_gh_data(&fetched), Ok(true));
    assert_eq!(repo.stars, Some(5));
    assert_eq!(
        repo.digest.as_deref(),
        Some("49f3c2b6d98344c3a70952607e1cdc2c7d4cb5745ea0d7073f6805d7d96e02b2")
    );
    fetched.stargazer_count = i64::from(i32::MAX) + 1;
    assert_eq!(repo.update_gh_data(&fetched), Ok(true));
    assert_eq!(repo.stars, Some(i32::MIN));
}

#[test]
fn first_fetch_always_counts_as_a_change() {
    let mut repo = repository(None, None, None);
    let fetched = remote(&["rust", "verus"], &["Rust"], 10);
    assert_eq!(repo.update_gh_data(&fetched), Ok(true));
    assert_eq!(
        repo.digest.as_deref(),
        Some("039342ffc42cdfd964ae52b8ad21cf0e9af4e8d54ad4194f64ed7257e9300b6f")
    );
}

#[test]
fn unchanged_upstream_state_is_no_change() {
    let mut repo = repository(None, None, None);
    let fetched = remote(&["rust", "verus"], &["Rust"], 10);
    repo.update_gh_data(&fetched).unwrap();
    let stored = repo.digest.clone();
    assert_eq!(repo.update_gh_data(&fetched), Ok(false));
    assert_eq!(repo.digest, stored);
    assert_eq!(repo.stars, Some(10));
}

#[test]
fn one_more_star_is_a_change() {
    let mut repo = repository(None, None, None);
    repo.update_gh_data(&remote(&["rust", "verus"], &["Rust"], 10)).unwrap();
    assert_eq!(repo.update_gh_data(&remote(&["rust", "verus"], &["Rust"], 11)), Ok(true));
    assert_eq!(repo.stars, Some(11));
    assert_eq!(
        repo.digest.as_deref(),
        Some("e0ff1a25b4faa23cb9fcdb18202bbe78272c74dd44b16cf56e66a455ea403d68")
    );
}

#[test]
fn a_stored_digest_that_does_not_fit_is_a_change() {
    let mut repo = repository(Some(texts(&["rust", "verus"])), Some(texts(&["Rust"])), Some(10));
    repo.digest = Some("0".repeat(64));
    assert_eq!(repo.update_gh_data(&remote(&["rust", "verus"], &["Rust"], 10)), Ok(true));
    assert_eq!(
        repo.digest.as_deref(),
        Some("039342ffc42cdfd964ae52b8ad21cf0e9af4e8d54ad4194f64ed7257e9300b6f")
    );
}

#[test]
fn labels_keep_their_boundaries_in_the_digest() {
    let mut one = issue("t", &["ab", "c"]);
    let mut other = issue("t", &["a", "bc"]);
    one.update_digest();
    other.update_digest();
    assert_eq!(
        one.digest.as_deref(),
        Some("009dc09e272324f4dcc49906f1418359927e16b98314c9d6583b85ee9acd4886")
    );
    assert_eq!(
        other.digest.as_deref(),
        Some("10d8998ce8f604a004a0aab07012e48daf7ade39196b47c0e8567338cc78b766")
    );
    assert_ne!(one.digest, other.digest);
}

#[test]
fn issues_with_equal_title_and_labels_get_the_same_digest() {
    let mut one = issue("Bug", &["help wanted"]);
    one.issue_id = 1;
    one.number = 1;
    one.url = "u1".to_string();
    one.digest = None;
    let mut other = issue("Bug", &["help wanted"]);
    other.issue_id = 2;
    other.number = 9;
    other.url = "u2".to_string();
    other.digest = Some("old".to_string());
    one.update_digest();
    other.update_digest();
    assert_eq!(
        one.digest.as_deref(),
        Some("cbc5179c65d205324b337481c03b0c5998a311038a6f593de2b3785ce8bd455b")
    );
    assert_eq!(one.digest, other.digest);
}

#[test]
fn a_second_update_of_the_digest_succeeds_and_keeps_it() {
    let mut repo = repository(None, None, Some(10));
    assert_eq!(repo.update_digest(), Ok(()));
    let first = repo.digest.clone();
    assert_eq!(
        first.as_deref(),
        Some("657b1da0926b7125524f066a813501046560acff42d7be1201207dcfd419731a")
    );
    assert_eq!(repo.update_digest(), Ok(()));
    assert_eq!(repo.digest, first);
}

#[test]
fn ten_stars_again_is_no_change_and_eleven_stars_is_one() {
    let mut repo = repository(None, None, Some(10));
    repo.update_digest().unwrap();
    let stored = repo.digest.clone();
    let mut fetched =
        RemoteRepository { topics: None, languages: None, stargazer_count: 10, issues: Vec::new() };
    assert_eq!(repo.update_gh_data(&fetched), Ok(false));
    assert_eq!(repo.stars, Some(10));
    assert_eq!(repo.digest, stored);
    assert_eq!(repo.update_gh_data(&fetched), Ok(false));
    fetched.stargazer_count = 11;
    assert_eq!(repo.update_gh_data(&fetched), Ok(true));
    assert_eq!(repo.stars, Some(11));
    assert_eq!(
        repo.digest.as_deref(),
        Some("88f20890747cf5f39d99aecd97bdfb999c9650491164cd505e425ea2f70177ec")
    );
    assert_ne!(repo.digest, stored);
}

#[test]
fn duplicates_are_equal_to_their_originals() {
    let mut repo = repository(Some(texts(&["rust"])), None, Some(1));
    repo.update_digest().unwrap();
    assert_eq!(repo.duplicate(), repo);
    let mut open = issue("Fix the parser", &["bug"]);
    open.update_digest();
    assert_eq!(open.duplicate(), open);
    assert_eq!(duplicate_texts(&texts(&["a", "b"])), texts(&["a", "b"]));
    assert_eq!(duplicate_optional_texts(&None), None);
    assert_eq!(duplicate_optional_texts(&Some(texts(&["a"]))), Some(texts(&["a"])));
    assert_eq!(duplicate_optional_text(&None), None);
    assert_eq!(duplicate_optional_text(&Some("a".to_string())), Some("a".to_string()));
}

#[test]
fn optional_texts_are_compared_by_presence_and_content() {
    let a = Some("a".to_string());
    let b = Some("b".to_string());
    assert!(same_optional_text(&None, &None));
    assert!(same_optional_text(&a, &a));
    assert!(!same_optional_text(&a, &b));
    assert!(!same_optional_text(&a, &None));
    assert!(!same_optional_text(&None, &b));
}
