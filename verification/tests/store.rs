use base64::Engine;
use serde_json::Value;
use sirucord::engine::State;
use sirucord::json::{named, Json};
use sirucord::store::{
    check_version, is_secret, is_state_key, valid_repository, Backend, LoadStep, Loading, SaveStep,
    Saving, Store, StoreError,
};

const EMPTY: &str = r#"{"version":1,"entries":{}}"#;

fn convert(value: &Value) -> Json {
    match value {
        Value::Null => Json::Null,
        Value::Bool(b) => Json::Bool(*b),
        Value::Number(n) => match n.as_u64() {
            Some(n) => Json::Unsigned(n),
            None => Json::Number(n.to_string()),
        },
        Value::String(s) => Json::text(s),
        Value::Array(items) => Json::list(items.iter().map(convert).collect()),
        Value::Object(members) => {
            Json::object(members.iter().map(|(k, v)| named(k, convert(v))).collect())
        }
    }
}

fn json(text: &str) -> Json {
    convert(&serde_json::from_str(text).unwrap())
}

fn local(secret: &str) -> Store {
    Store::new(Backend::Local("unused".into()), secret)
}

fn github() -> Backend {
    Backend::Github {
        base: "https://api".into(),
        repository: "owner/repo".into(),
        token: "token".into(),
        sha: None,
    }
}

#[test]
fn encryption_hides_state_and_rejects_wrong_keys_and_tampering() {
    let store = local("secret");
    let text = store.encrypt(EMPTY.as_bytes()).unwrap();
    assert!(!text.contains("entries"));
    assert_eq!(store.decrypt(&text).unwrap(), EMPTY.as_bytes());
    assert_eq!(State::default().version, 1);
    assert!(local("wrong").decrypt(&text).is_err());
    assert!(store.decrypt(&(text + "X")).is_err());
}

#[test]
fn local_save_survives_replacement() {
    let store = Store::new(Backend::Local("dir/state.enc".into()), "key");
    let mut file = String::new();
    for _ in 0..2 {
        let (_, step) = store.save(EMPTY.as_bytes()).ok().unwrap();
        let SaveStep::File(path, text) = step else {
            panic!("no file");
        };
        assert_eq!(path, "dir/state.enc");
        assert_ne!(file, text);
        file = text;
    }
    let LoadStep::File(path) = store.backend.begin_load() else {
        panic!("no file");
    };
    assert_eq!(path, "dir/state.enc");
    assert_eq!(store.load(&Some(file)).unwrap().unwrap(), EMPTY.as_bytes());
    assert_eq!(check_version(1), Ok(()));
}

#[test]
fn envelopes_hold_the_nonce_and_the_sealed_bytes() {
    let store = local("secret");
    let nonce = [7u8; 12];
    let text = store.encrypt_with(&nonce, b"plain").unwrap();
    let code = text.strip_prefix("sirucord-state-v1:").unwrap();
    let data = base64::engine::general_purpose::STANDARD.decode(code).unwrap();
    assert_eq!(data.len(), 12 + 5 + 16);
    assert_eq!(data[..12], nonce);
    assert_ne!(&data[12..17], b"plain");
    assert_eq!(store.encrypt_with(&nonce, b"plain").unwrap(), text);
    assert_ne!(local("other").encrypt_with(&nonce, b"plain").unwrap(), text);
    assert_eq!(store.decrypt(&text).unwrap(), b"plain");
}

#[test]
fn envelopes_are_refused_by_reason() {
    let store = local("secret");
    assert_eq!(store.decrypt("other:"), Err(StoreError::Envelope));
    assert_eq!(store.decrypt("sirucord-state-v1:?"), Err(StoreError::Base64));
    assert_eq!(store.decrypt("sirucord-state-v1:AAAA"), Err(StoreError::Truncated));
    let zeros = "A".repeat(40);
    assert_eq!(store.decrypt(&format!("sirucord-state-v1:{zeros}")), Err(StoreError::Key));
    assert!(StoreError::Key.message().starts_with("Cannot decrypt state"));
    assert_eq!(check_version(2), Err(StoreError::Version));
    assert_eq!(store.load(&None), Ok(None));
}

#[test]
fn github_state_read_failure_is_not_treated_as_empty() {
    let mut backend = github();
    let LoadStep::Ask(at, _) = backend.begin_load() else {
        panic!("no request");
    };
    assert!(backend.continue_load(at, 403, &Json::Null).is_err());
}

#[test]
fn missing_file_on_an_existing_branch_is_lost_state() {
    let mut backend = github();
    let Ok(LoadStep::Ask(at, request)) = backend.continue_load(Loading::Contents, 404, &Json::Null)
    else {
        panic!("no request");
    };
    assert_eq!(request.url, "https://api/repos/owner/repo/git/ref/heads/sirucord-state");
    assert_eq!(backend.continue_load(at, 200, &Json::Null).err(), Some(StoreError::Lost));
    assert!(matches!(
        backend.continue_load(at, 404, &Json::Null),
        Ok(LoadStep::Loaded(None))
    ));
}

/// Answers requests as a repository does.
struct Server {
    saved: Option<(String, String)>,
    created: usize,
    written: usize,
}

impl Server {
    fn load(&self, store: &mut Store) -> Option<Vec<u8>> {
        let mut step = store.backend.begin_load();
        loop {
            match step {
                LoadStep::File(_) => unreachable!(),
                LoadStep::Loaded(text) => return store.load(&text).unwrap(),
                LoadStep::Ask(at, request) => {
                    assert_eq!(request.authorization.as_deref(), Some("Bearer token"));
                    let (status, body) = match (at, &self.saved) {
                        (Loading::Contents, Some((content, sha))) => (
                            200,
                            Json::object(vec![
                                named("content", Json::text(content)),
                                named("sha", Json::text(sha)),
                            ]),
                        ),
                        _ => (404, Json::Null),
                    };
                    step = store.backend.continue_load(at, status, &body).ok().unwrap();
                }
            }
        }
    }

    fn save(&mut self, store: &mut Store, plain: &[u8]) {
        let (text, mut step) = store.save(plain).ok().unwrap();
        loop {
            match step {
                SaveStep::File(..) => unreachable!(),
                SaveStep::Saved => return,
                SaveStep::Ask(at, request) => {
                    let body = match at {
                        Saving::Branch => {
                            step = store
                                .backend
                                .continue_save(&text, at, 404, &Json::Null)
                                .ok()
                                .unwrap();
                            continue;
                        }
                        Saving::Repository => {
                            assert_eq!(request.url, "https://api/repos/owner/repo");
                            json(r#"{"default_branch":"main"}"#)
                        }
                        Saving::Head => {
                            assert_eq!(
                                request.url,
                                "https://api/repos/owner/repo/git/ref/heads/main"
                            );
                            json(r#"{"object":{"sha":"main-sha"}}"#)
                        }
                        Saving::Creation => {
                            assert_eq!(request.url, "https://api/repos/owner/repo/git/refs");
                            assert_eq!(
                                request.body.unwrap().to_text(),
                                r#"{"ref":"refs/heads/sirucord-state","sha":"main-sha"}"#
                            );
                            self.created += 1;
                            Json::Null
                        }
                        Saving::Write => {
                            assert!(!request.repeatable);
                            let body = request.body.unwrap();
                            match &self.saved {
                                Some((_, previous)) => {
                                    assert_eq!(body.get("sha").as_text(), Some(previous.as_str()))
                                }
                                None => assert!(!body.has("sha")),
                            }
                            let next = if self.saved.is_none() { "sha-1" } else { "sha-2" };
                            let content = body.get("content").as_text().unwrap().to_owned();
                            self.saved = Some((content, next.to_owned()));
                            self.written += 1;
                            json(&format!(r#"{{"content":{{"sha":"{next}"}}}}"#))
                        }
                    };
                    step = store.backend.continue_save(&text, at, 200, &body).ok().unwrap();
                }
            }
        }
    }
}

#[test]
fn github_state_roundtrip_preserves_encryption_and_uses_revision_sha() {
    let mut server = Server { saved: None, created: 0, written: 0 };
    let make = || Store::new(github(), "state-key");
    let mut store = make();
    assert!(server.load(&mut store).is_none());
    server.save(&mut store, EMPTY.as_bytes());
    let mut restarted = make();
    let state = server.load(&mut restarted).unwrap();
    assert_eq!(state, EMPTY.as_bytes());
    server.save(&mut restarted, &state);
    assert_eq!((server.created, server.written), (1, 2));
    let envelope = String::from_utf8(
        base64::engine::general_purpose::STANDARD
            .decode(&server.saved.as_ref().unwrap().0)
            .unwrap(),
    )
    .unwrap();
    assert!(envelope.starts_with("sirucord-state-v1:"));
    assert!(!envelope.contains("entries"));
}

#[test]
fn contents_may_be_broken_into_lines() {
    let mut backend = github();
    let body = json(r#"{"sha":"s","content":"aGVs\nbG8=\r\n"}"#);
    let Ok(LoadStep::Loaded(Some(text))) = backend.continue_load(Loading::Contents, 200, &body)
    else {
        panic!("not loaded");
    };
    assert_eq!(text, "hello");
    for (body, error) in [
        (r#"{"content":"aGVsbG8="}"#, StoreError::MissingSha),
        (r#"{"sha":"s"}"#, StoreError::MissingContent),
        (r#"{"sha":"s","content":"?"}"#, StoreError::Base64),
        (r#"{"sha":"s","content":"/w=="}"#, StoreError::NoText),
    ] {
        assert_eq!(
            github().continue_load(Loading::Contents, 200, &json(body)).err(),
            Some(error)
        );
    }
}

#[test]
fn failed_writes_are_errors() {
    let fail = |at: Saving, status: u16, body: &Json| {
        github().continue_save("text", at, status, body).err().unwrap()
    };
    assert_eq!(
        fail(Saving::Write, 409, &Json::Null).message(),
        "GitHub state write (check contents:write permission): HTTP 409 (body redacted)"
    );
    assert_eq!(fail(Saving::Write, 200, &Json::Null), StoreError::MissingSavedSha);
    assert_eq!(fail(Saving::Repository, 200, &Json::Null), StoreError::MissingDefaultBranch);
    assert_eq!(
        fail(Saving::Branch, 500, &Json::Null).message(),
        "GitHub state branch: HTTP 500 (body redacted)"
    );
}

#[test]
fn secrets_and_repositories_are_checked() {
    assert!(is_secret("x") && !is_secret(" \n"));
    assert!(is_state_key(&"k".repeat(32)) && !is_state_key(&"k".repeat(31)));
    assert!(is_state_key(&"あ".repeat(11)));
    assert!(valid_repository("owner/repo-1._"));
    for text in ["owner", "a/b/c", "owner/re po", "owner/ｒ", ""] {
        assert!(!valid_repository(text));
    }
}

#[test]
fn a_named_revision_is_kept_though_its_content_is_unreadable() {
    for (body, error) in [
        (r#"{"sha":"abc"}"#, StoreError::MissingContent),
        (r#"{"sha":"abc","content":"?"}"#, StoreError::Base64),
    ] {
        let mut backend = github();
        let read = backend.continue_load(Loading::Contents, 200, &json(body));
        assert_eq!(read.err(), Some(error));
        let Backend::Github { sha, .. } = backend else {
            panic!("no repository");
        };
        assert_eq!(sha.as_deref(), Some("abc"));
    }
    let mut backend = github();
    let read = backend.continue_load(Loading::Contents, 200, &json(r#"{"content":""}"#));
    assert_eq!(read.err(), Some(StoreError::MissingSha));
    assert!(matches!(backend, Backend::Github { sha: None, .. }));
}
