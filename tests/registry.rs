use std::collections::HashMap;

use regskin::auth::{bearer_header, challenge_from, AuthError, Token};
use regskin::cache::{CatalogCache, Refresher};
use regskin::registry::{
    tags_from_reply, v1_compatibility, Catalog, Config, ImageV1, ImageV1Details, RegistryError,
    Tags,
};
use regskin::retry::{Action, AuthRetry, Event, Phase};

const BASE: &str = "https://reg.example";
const CHALLENGE: &str = "Bearer realm=\"x\",service=\"reg\",scope=\"repository:foo:pull\"";

fn strings(items: &[&str]) -> Vec<String> {
    items.iter().map(|s| s.to_string()).collect()
}

/// A registry double: answers by address, and counts the requests.
struct FakeRegistry {
    answers: HashMap<String, (u16, Option<String>)>,
    token: Option<String>,
    tags: Vec<String>,
    requests: Vec<(String, Option<String>)>,
}

impl FakeRegistry {
    fn new(tags: &[&str]) -> FakeRegistry {
        FakeRegistry { answers: HashMap::new(), token: None, tags: strings(tags), requests: Vec::new() }
    }
}

/// Runs the tag-list exchange against the double, as a server would.
fn fetch_tags(catalog: &Catalog, path: &str, reg: &mut FakeRegistry) -> Result<Tags, RegistryError> {
    let url = match catalog.tags_request(BASE, path) {
        Some(url) => url,
        None => return Ok(Tags::new()),
    };
    let (mut exchange, mut action) = AuthRetry::new(BASE.to_string(), url);
    let mut last = 0u16;
    loop {
        match action {
            Action::Get { url, authorization } => {
                reg.requests.push((url.clone(), authorization.clone()));
                let event = if url.contains("/v2/token?") {
                    match &reg.token {
                        Some(t) => Event::TokenIssued(Token { token: t.clone() }),
                        None => Event::TokenMalformed,
                    }
                } else {
                    let (status, header) = match authorization {
                        Some(_) => (200, None),
                        None => reg.answers.get(&url).cloned().unwrap_or((200, None)),
                    };
                    last = status;
                    Event::Responded { status, www_authenticate: header }
                };
                action = exchange.step(event);
            }
            Action::Finish => {
                let decoded = Tags { name: path.to_string(), tags: reg.tags.clone() };
                return tags_from_reply(last, Some(decoded));
            }
            Action::Fail(e) => return Err(e),
        }
    }
}

#[test]
fn challenge_gives_service_and_scope() {
    let c = challenge_from(401, Some(CHALLENGE)).expect("a challenge");
    assert_eq!(c.service, "reg");
    assert_eq!(c.scope, "repository:foo:pull");
}

#[test]
fn challenge_is_case_blind_and_allows_space() {
    let c = challenge_from(401, Some("Bearer realm=\"x\", SERVICE=\"s\",  scope=\"p\"")).unwrap();
    assert_eq!(c.service, "s");
    assert_eq!(c.scope, "p");
}

#[test]
fn no_challenge_without_quoted_pair() {
    assert!(challenge_from(401, Some("Bearer realm=x,service=reg,scope=foo")).is_none());
    assert!(challenge_from(401, Some("Basic realm=\"x\"")).is_none());
    assert!(challenge_from(401, None).is_none());
}

#[test]
fn no_challenge_unless_unauthorized() {
    assert!(challenge_from(200, Some(CHALLENGE)).is_none());
    assert!(challenge_from(403, Some(CHALLENGE)).is_none());
}

#[test]
fn addresses_are_built_from_the_base() {
    assert_eq!(Catalog::get_url(BASE, "100"), "https://reg.example/v2/_catalog?n=100");
    assert_eq!(
        Catalog::get_token_url(BASE, "reg", "repository:foo:pull"),
        "https://reg.example/v2/token?service=reg&scope=repository:foo:pull"
    );
    assert_eq!(
        Catalog::manifest_url(BASE, "team/app", "v1"),
        "https://reg.example/v2/team/app/manifests/v1"
    );
    assert_eq!(bearer_header(&Token { token: "abc".to_string() }), "Bearer abc");
}

#[test]
fn tags_of_unknown_path_need_no_request() {
    let catalog = Catalog::from_repositories(strings(&["team/app"]));
    assert_eq!(catalog.tags_request(BASE, "team/"), None);
    assert_eq!(catalog.tags_request(BASE, "other/"), None);
    let mut reg = FakeRegistry::new(&["v1"]);
    let tags = fetch_tags(&catalog, "other/", &mut reg).unwrap();
    assert!(tags.tags.is_empty());
    assert_eq!(reg.requests.len(), 0);
}

#[test]
fn tags_of_known_path_are_fetched_and_sorted() {
    let catalog = Catalog::from_repositories(strings(&["team/app"]));
    assert_eq!(
        catalog.tags_request(BASE, "team/app/"),
        Some("https://reg.example/v2/team/app/tags/list".to_string())
    );
    let mut reg = FakeRegistry::new(&["a", "c", "b"]);
    let tags = fetch_tags(&catalog, "team/app/", &mut reg).unwrap();
    assert_eq!(tags.tags, strings(&["c", "b", "a"]));
    assert_eq!(reg.requests.len(), 1);
}

#[test]
fn unauthorized_tags_request_is_retried_with_token() {
    let catalog = Catalog::from_repositories(strings(&["team/app"]));
    let mut reg = FakeRegistry::new(&["v1"]);
    reg.token = Some("tok".to_string());
    reg.answers.insert(
        "https://reg.example/v2/team/app/tags/list".to_string(),
        (401, Some(CHALLENGE.to_string())),
    );
    let tags = fetch_tags(&catalog, "team/app/", &mut reg).unwrap();
    assert_eq!(tags.tags, strings(&["v1"]));
    assert_eq!(reg.requests.len(), 3);
    assert_eq!(
        reg.requests[1].0,
        "https://reg.example/v2/token?service=reg&scope=repository:foo:pull"
    );
    assert_eq!(reg.requests[2].1, Some("Bearer tok".to_string()));
}

#[test]
fn malformed_token_fails_the_request() {
    let catalog = Catalog::from_repositories(strings(&["team/app"]));
    let mut reg = FakeRegistry::new(&["v1"]);
    reg.answers.insert(
        "https://reg.example/v2/team/app/tags/list".to_string(),
        (401, Some(CHALLENGE.to_string())),
    );
    let r = fetch_tags(&catalog, "team/app/", &mut reg);
    assert_eq!(r.err(), Some(RegistryError::Auth(AuthError::MalformedTokenResponse)));
}

#[test]
fn second_unauthorized_is_final() {
    let (mut exchange, _) = AuthRetry::new(BASE.to_string(), "u".to_string());
    let a = exchange.step(Event::Responded { status: 401, www_authenticate: Some(CHALLENGE.to_string()) });
    assert!(matches!(a, Action::Get { authorization: None, .. }));
    let a = exchange.step(Event::TokenIssued(Token { token: "t".to_string() }));
    assert!(matches!(a, Action::Get { authorization: Some(_), .. }));
    assert_eq!(exchange.phase, Phase::Retried);
    let a = exchange.step(Event::Responded { status: 401, www_authenticate: Some(CHALLENGE.to_string()) });
    assert!(matches!(a, Action::Finish));
    assert_eq!(exchange.phase, Phase::Done);
    assert_eq!(tags_from_reply(401, None).err(), Some(RegistryError::Status(401)));
    let a = exchange.step(Event::Unreachable);
    assert!(matches!(a, Action::Fail(RegistryError::OutOfSequence)));
}

#[test]
fn unauthorized_without_challenge_is_final() {
    let (mut exchange, first) = AuthRetry::new(BASE.to_string(), "u".to_string());
    assert!(matches!(first, Action::Get { authorization: None, .. }));
    let a = exchange.step(Event::Responded { status: 401, www_authenticate: None });
    assert!(matches!(a, Action::Finish));
}

#[test]
fn transport_failures_are_errors() {
    let (mut exchange, _) = AuthRetry::new(BASE.to_string(), "u".to_string());
    let a = exchange.step(Event::Unreachable);
    assert!(matches!(a, Action::Fail(RegistryError::Transport)));
    let (mut exchange, _) = AuthRetry::new(BASE.to_string(), "u".to_string());
    exchange.step(Event::Responded { status: 401, www_authenticate: Some(CHALLENGE.to_string()) });
    let a = exchange.step(Event::Unreachable);
    assert!(matches!(a, Action::Fail(RegistryError::Auth(AuthError::TokenEndpointUnreachable))));
}

#[test]
fn missing_tag_list_is_empty() {
    let t = tags_from_reply(404, None).unwrap();
    assert!(t.tags.is_empty());
    assert!(t.name.is_empty());
}

#[test]
fn tags_sort_as_strings_descending() {
    let decoded = Tags { name: "app".to_string(), tags: strings(&["v1.2", "v1.10", "latest"]) };
    let t = tags_from_reply(200, Some(decoded)).unwrap();
    // A plain string order: "v1.10" sorts before "v1.2" and after "latest".
    assert_eq!(t.tags, strings(&["v1.2", "v1.10", "latest"]));
    assert_eq!(t.name, "app");
}

#[test]
fn tag_errors_keep_the_status() {
    assert_eq!(tags_from_reply(500, None).err(), Some(RegistryError::Status(500)));
    assert_eq!(tags_from_reply(200, None).err(), Some(RegistryError::MalformedResponse));
}

fn image(history: Vec<Vec<(String, String)>>) -> ImageV1 {
    ImageV1 { name: "app".to_string(), history, details: ImageV1Details::default() }
}

#[test]
fn manifest_without_v1_metadata_is_malformed() {
    let m = image(vec![vec![("other".to_string(), "{}".to_string())]]);
    assert_eq!(v1_compatibility(200, Some(&m)).err(), Some(RegistryError::MalformedManifest));
    let empty = image(Vec::new());
    assert_eq!(v1_compatibility(200, Some(&empty)).err(), Some(RegistryError::MalformedManifest));
}

#[test]
fn manifest_v1_metadata_is_read_from_first_entry() {
    let m = image(vec![
        vec![("x".to_string(), "1".to_string()), ("v1Compatibility".to_string(), "{\"os\":\"linux\"}".to_string())],
        vec![("v1Compatibility".to_string(), "older".to_string())],
    ]);
    assert_eq!(v1_compatibility(200, Some(&m)).unwrap(), "{\"os\":\"linux\"}");
}

#[test]
fn manifest_errors() {
    assert_eq!(v1_compatibility(404, None).err(), Some(RegistryError::NotFound));
    assert_eq!(v1_compatibility(502, None).err(), Some(RegistryError::Status(502)));
    assert_eq!(v1_compatibility(200, None).err(), Some(RegistryError::MalformedResponse));
}

#[test]
fn details_take_labels_path_and_tag() {
    let mut details = ImageV1Details::default();
    details.os = "linux".to_string();
    details.config = Some(Config { labels: vec![("k".to_string(), "v".to_string())] });
    let img = image(Vec::new()).with_details(details, "team/app", "v1");
    assert_eq!(img.details.tag, "v1");
    assert_eq!(img.details.path, "team/app");
    assert_eq!(img.details.os, "linux");
    assert_eq!(img.details.config_parsed.labels, vec![("k".to_string(), "v".to_string())]);
    let kept = img.details.config.as_ref().expect("the configuration is kept");
    assert_eq!(kept.labels, vec![("k".to_string(), "v".to_string())]);
    let bare = image(Vec::new()).with_details(ImageV1Details::default(), "p", "t");
    assert!(bare.details.config_parsed.labels.is_empty());
    assert!(bare.details.config.is_none());
}

#[test]
fn update_config_copies_labels_and_keeps_config() {
    let labels = vec![("a".to_string(), "1".to_string()), ("b".to_string(), "2".to_string())];
    let mut details = ImageV1Details::default();
    details.config = Some(Config { labels: labels.clone() });
    details.update_config();
    assert_eq!(details.config_parsed.labels, labels);
    assert_eq!(details.config.map(|c| c.labels), Some(labels));
}

#[test]
fn catalog_from_reply() {
    let c = Catalog::from_reply(200, Some(strings(&["a/b"]))).unwrap();
    assert_eq!(c.repositories, strings(&["a/b"]));
    assert_eq!(c.list_directory("a"), Some(strings(&["b"])));
    assert_eq!(Catalog::from_reply(500, None).err().map(|e| e), Some(RegistryError::Status(500)));
    assert_eq!(Catalog::from_reply(200, None).err(), Some(RegistryError::MalformedResponse));
}

#[test]
fn replace_then_read_gives_new_snapshot() {
    let mut cache = CatalogCache::new(Catalog::from_repositories(strings(&["old"])));
    let held = cache.current_snapshot();
    cache.replace(Catalog::from_repositories(strings(&["new/one"])));
    assert_eq!(cache.current_snapshot().repositories, strings(&["new/one"]));
    assert_eq!(held.repositories, strings(&["old"]));
    assert_eq!(held.list_directory(""), Some(strings(&["old"])));
}

#[test]
fn refresher_skips_ticks_and_keeps_old_catalog_on_failure() {
    let mut cache = CatalogCache::new(Catalog::default());
    assert!(!cache.is_populated());
    let mut r = Refresher::Idle;
    assert!(r.on_tick());
    assert!(!r.on_tick());
    r.on_fetched(Ok(Catalog::from_repositories(strings(&["a"]))), &mut cache);
    assert_eq!(r, Refresher::Idle);
    assert!(cache.is_populated());
    assert!(r.on_tick());
    r.on_fetched(Err(RegistryError::Transport), &mut cache);
    assert_eq!(cache.current_snapshot().repositories, strings(&["a"]));
}
