use serde_json::Value;
use sirucord::avatars::{describe, validate_url, Avatar};
use sirucord::config::{Config, Mastodon as Account, Server, Streamer};
use sirucord::discord::{
    parse_guild, screenshot, title, Announcement, Attachment, Discord, ImageSource, Target, User,
};
use sirucord::engine::{
    complete, metadata_due, strip_links, Action, App, EngineError, Entry, Input, Kind,
    Pending, Post, Stage, State,
};
use sirucord::json::{named, Json};
use sirucord::mastodon::Mastodon;
use sirucord::sharing::{share_targets, ShareAction, ShareInput, SharePhase};
use sirucord::store::{Backend, Store};
use sirucord::survey::{Reading, Reply, RunError, Survey, Surveyed};
use sirucord::table::Table;
use sirucord::targets::{
    add_offline, observe, occupied_guilds, resolve_posted, resolve_retry, tally, unresolved,
};
use sirucord::time::Timestamp;
use sirucord::visit::{Observed, Phase};

fn convert(value: &Value) -> Json {
    match value {
        Value::Null => Json::Null,
        Value::Bool(b) => Json::Bool(*b),
        Value::Number(n) => match n.as_u64() {
            Some(n) => Json::Unsigned(n),
            None => Json::Number(n.to_string()),
        },
        Value::String(s) => Json::text(s),
        Value::Array(items) => Json::list(items.iter().map(convert).collect()),
        Value::Object(members) => {
            Json::object(members.iter().map(|(k, v)| named(k, convert(v))).collect())
        }
    }
}

fn json(text: &str) -> Json {
    convert(&serde_json::from_str(text).unwrap())
}

/// So many minutes after some instant.
fn at(minutes: i64) -> Timestamp {
    Timestamp { seconds: 1_800_000_000 + minutes * 60, nanos: 0 }
}

fn streamer() -> Streamer {
    Streamer {
        guild_id: "1".into(),
        user_id: "2".into(),
        display_name: "Streamer".into(),
        voice_channel_ids: vec!["3".into(), "4".into()],
        default_title: "Test stream".into(),
        announcement_channel_id: None,
        screenshots: false,
    }
}

fn server() -> Server {
    Server {
        guild_id: "1".into(),
        use_activity: true,
        voice_channel_ids: vec!["3".into()],
        default_title: "test".into(),
        announcement_channel_id: None,
        share_channel_id: Some("9".into()),
        screenshots: false,
    }
}

fn app() -> App {
    App {
        config: Config {
            mastodon: Account {
                base_url: "https://mastodon.social".into(),
                visibility: "unlisted".into(),
            },
            streamers: vec![streamer()],
            servers: Vec::new(),
            screenshot_interval_minutes: 30,
            activity_update_interval_minutes: 30,
        },
        discord: Discord { base: "https://discord".into(), token: "discord-secret".into() },
        mastodon: Mastodon {
            base: "https://mastodon".into(),
            token: "mastodon-secret".into(),
            visibility: "unlisted".into(),
        },
        store: Store::new(Backend::Local("state.enc".into()), "a test key"),
    }
}

fn entry(session: &str, announced: bool) -> Entry {
    Entry {
        metadata_fingerprint: None,
        session_id: session.into(),
        first_seen: at(0),
        announced,
        last_post: None,
        last_attachment: None,
        pending: None,
    }
}

fn pending(key: &str, text: &str) -> Pending {
    Pending {
        shared_message: false,
        avatars: Vec::new(),
        metadata_fingerprint: None,
        key: key.into(),
        text: text.into(),
        attachment: None,
        media_id: None,
        attempted_at: None,
        is_start: true,
    }
}

fn copy(state: &State) -> State {
    let mut out = State::default();
    for i in 0..state.entries.len() {
        let row = state.entries.row(i);
        out.put(&row.key, row.value.clone());
    }
    out
}

/// The world outside: what is saved, what was posted, and what fails.
struct World {
    saved: Option<State>,
    posts: Vec<Post>,
    uploads: Vec<String>,
    told: Vec<Kind>,
    messages: Vec<Announcement>,
    message: String,
    reads: usize,
    saves: usize,
    fail_save: bool,
    fail_post: bool,
    fail_upload: bool,
}

impl World {
    fn new() -> World {
        World {
            saved: None,
            posts: Vec::new(),
            uploads: Vec::new(),
            told: Vec::new(),
            messages: Vec::new(),
            message: "[]".into(),
            reads: 0,
            saves: 0,
            fail_save: false,
            fail_post: false,
            fail_upload: false,
        }
    }

    fn load(&self) -> State {
        match &self.saved {
            Some(state) => copy(state),
            None => State::default(),
        }
    }

    /// Does what is asked for, and says what came of it.
    fn act(&mut self, state: &State, action: Action) -> Input {
        match action {
            Action::Save => {
                self.saves += 1;
                if self.fail_save {
                    return Input::Failed;
                }
                self.saved = Some(copy(state));
                Input::Done
            }
            Action::Fetch(_) => {
                self.reads += 1;
                Input::Messages(std::mem::take(&mut self.messages))
            }
            Action::Card(avatars) => {
                let missing = avatars.iter().filter(|a| validate_url(&a.url).is_err()).count();
                self.uploads.push(describe(&avatars, missing));
                Input::Media("icons".into())
            }
            Action::Upload(image, text) => {
                if self.fail_upload {
                    return Input::Failed;
                }
                self.uploads.push(text);
                Input::Media(format!("media-{}", image.id))
            }
            Action::Publish(post) => {
                self.posts.push(post);
                if self.fail_post {
                    return Input::Failed;
                }
                Input::Done
            }
            Action::Tell(kind) => {
                self.told.push(kind);
                Input::Done
            }
            Action::Finish => unreachable!(),
        }
    }

    fn deliver(&mut self, state: &mut State, key: &str, now: Timestamp) -> Result<(), String> {
        let mut stage = Stage::Begin;
        let mut input = Input::Done;
        loop {
            let (next, action) = App::deliver(state, key, false, stage, input, now)
                .map_err(|e| e.message().to_owned())?;
            if matches!(action, Action::Finish) {
                return Ok(());
            }
            stage = next;
            input = self.act(state, action);
        }
    }

    /// Goes about every target.
    fn visit(
        &mut self,
        app: &App,
        mut state: State,
        observed: Table<Observed>,
        dry_run: bool,
        now: Timestamp,
    ) -> Result<bool, String> {
        for i in 0..observed.len() {
            let row = observed.row(i);
            let mut phase = Phase::Begin;
            let mut input = Input::Done;
            loop {
                let (next, action) = app
                    .run(&mut state, &row.key, &row.value, dry_run, phase, input, now)
                    .map_err(|e| e.message().to_owned())?;
                if matches!(action, Action::Finish) {
                    break;
                }
                phase = next;
                input = self.act(&state, action);
            }
        }
        Ok(tally(&observed).is_occupied())
    }

    fn run(
        &mut self,
        app: &App,
        discovered: Vec<Target>,
        individuals: Vec<Observed>,
        dry_run: bool,
        now: Timestamp,
    ) -> Result<bool, String> {
        let state = self.load();
        let observed = observe(&discovered, &individuals);
        let observed = add_offline(observed, &state, &app.config.servers)
            .map_err(|e| e.message().to_owned())?;
        self.visit(app, state, observed, dry_run, now)
    }

    /// One run on the configured person, from the answer on their voice state.
    fn check(&mut self, app: &App, status: u16, body: &str, dry_run: bool) -> Result<bool, String> {
        let mut survey = Survey::begin();
        loop {
            let reply = match survey.reading {
                Reading::State => Reply::State(self.load()),
                Reading::Account => Reply::Answer(200, Json::Null),
                Reading::Servers => Reply::Targets(Vec::new()),
                Reading::Person(_) => Reply::Answer(status, json(body)),
            };
            match survey.step(&app.config, reply).map_err(|e| e.message())? {
                Surveyed::Ask(next) => survey = next,
                Surveyed::Ready(state, observed) => {
                    return self.visit(app, state, observed, dry_run, at(0));
                }
            }
        }
    }

    fn live(&mut self, app: &App, channel: &str, dry_run: bool) -> Result<bool, String> {
        let body = format!(
            r#"{{"channel_id":"{channel}","session_id":"voice-session","self_stream":true}}"#
        );
        self.check(app, 200, &body, dry_run)
    }

    fn share(
        &mut self,
        app: &App,
        state: &mut State,
        occupied: &Table<()>,
        status: u16,
    ) -> Result<(), String> {
        for target in share_targets(&app.config.servers, occupied) {
            let name = target.name();
            let mut phase = SharePhase::Begin;
            let mut input = ShareInput::Act(Input::Done);
            loop {
                let (next, action) = App::share_updates(state, &name, false, phase, input, at(0))
                    .map_err(|e| e.message())?;
                phase = next;
                input = match action {
                    ShareAction::Read => {
                        self.reads += 1;
                        ShareInput::Answer(status, json(&self.message))
                    }
                    ShareAction::Titles(links) => {
                        ShareInput::Titles(links.iter().map(|_| None).collect())
                    }
                    ShareAction::Act(Action::Finish) => break,
                    ShareAction::Act(action) => ShareInput::Act(self.act(state, action)),
                };
            }
        }
        Ok(())
    }
}

fn occupied(guild: &str) -> Table<()> {
    let mut guilds = Table::new();
    guilds.insert(guild, ());
    guilds
}

#[test]
fn start_restart_and_channel_move_do_not_duplicate() {
    let app = app();
    let mut world = World::new();
    world.live(&app, "3", false).unwrap();
    assert!(world.live(&app, "3", false).unwrap()); // Still occupied even with no new post.
    world.live(&app, "4", false).unwrap();
    assert_eq!(world.posts.len(), 1);
    let request = app.mastodon.post(&world.posts[0]);
    assert!(request.idempotency_key.is_some());
    let body = request.body.unwrap();
    assert_eq!(body.get("visibility").as_text(), Some("unlisted"));
    let status = body.get("status").as_text().unwrap();
    assert!(status.contains("Test stream"));
    assert!(!status.contains("https://discord.com/channels/"));
}

#[test]
fn observed_end_then_restart_creates_a_new_announcement() {
    let app = app();
    let mut world = World::new();
    world.live(&app, "3", false).unwrap();
    world.check(&app, 404, r#"{"code":10065}"#, false).unwrap();
    assert_eq!(world.load().entries.len(), 0);
    world.live(&app, "3", false).unwrap();
    assert_eq!(world.posts.len(), 2);
}

#[test]
fn permission_errors_do_not_clear_live_state() {
    let app = app();
    let mut world = World::new();
    world.live(&app, "3", false).unwrap();
    for (status, code) in [(403, 50001), (404, 10004), (401, 0)] {
        let body = format!(r#"{{"code":{code}}}"#);
        assert!(world.check(&app, status, &body, false).is_err());
        assert!(world.load().get("1:2").unwrap().announced);
    }
}

#[test]
fn dry_run_neither_posts_nor_saves_state() {
    let app = app();
    let mut world = World::new();
    assert!(world.live(&app, "3", true).unwrap());
    assert!(world.saved.is_none());
    assert!(world.posts.is_empty() && world.uploads.is_empty());
    assert_eq!(world.told, vec![Kind::Start]);
    assert_eq!(world.told[0].text(), "start announcement");
}

#[test]
fn failed_delivery_reuses_durable_idempotency_key() {
    let app = app();
    let mut world = World::new();
    world.fail_post = true;
    assert_eq!(world.live(&app, "3", false).unwrap_err(), EngineError::Publication.message());
    let state = world.load();
    let key = state.get("1:2").unwrap().pending.unwrap().key;
    assert!(!state.get("1:2").unwrap().announced);
    world.fail_post = false;
    world.live(&app, "3", false).unwrap();
    assert_eq!(world.posts.len(), 2);
    for post in &world.posts {
        assert_eq!(post.key, key);
    }
    assert!(world.load().get("1:2").unwrap().pending.is_none());
}

#[test]
fn uncertain_old_delivery_stops_instead_of_reposting() {
    let mut world = World::new();
    let mut state = State::default();
    let mut old = entry("session", false);
    old.pending = Some(Pending { attempted_at: Some(at(-120)), ..pending("key", "announcement") });
    state.put("1:2", old);
    assert!(world
        .deliver(&mut state, "1:2", at(0))
        .unwrap_err()
        .contains("older than 55 minutes"));
    assert!(world.posts.is_empty() && world.saved.is_none());
    assert!(state.get("1:2").unwrap().pending.is_some());
}

#[test]
fn captions_and_images_require_streamer_authorship_explicit_prefix_and_freshness() {
    let now = at(0);
    let make = |id: &str, user: &str, content: &str, age: i64| Announcement {
        id: id.into(),
        author: User { id: user.into(), bot: false },
        content: content.into(),
        timestamp: at(-age),
        attachments: vec![Attachment {
            source: ImageSource::default(),
            id: id.into(),
            url: "https://cdn.discordapp.com/attachments/1/2/p.png".into(),
            content_type: Some("image/png".into()),
            size: 100,
        }],
        webhook_id: None,
    };
    let messages = vec![
        make("12", "2", "!sirucord New @person", 1),
        make("11", "2", "!sirucord Old", 2),
        make("13", "9", "!sirucord Someone else", 0),
        make("14", "2", "private conversation", 0),
        make("15", "2", "!sirucord Stale", 800),
    ];
    assert_eq!(title(&messages, "2", now).unwrap(), "New ＠person");
    assert_eq!(screenshot(&messages, "2", at(-30), now, None).unwrap().id, "12");
    assert!(screenshot(&messages, "2", at(-30), now, Some("12")).is_none());
    assert!(screenshot(&messages, "2", now, now, None).is_none());
}

#[test]
fn failed_state_write_prevents_publication() {
    let app = app();
    let mut world = World::new();
    world.fail_save = true;
    assert_eq!(world.live(&app, "3", false).unwrap_err(), EngineError::Unsaved.message());
    assert!(world.posts.is_empty());
    // It was tried once, and nothing else was.
    assert_eq!(world.saves, 1);
    assert!(world.uploads.is_empty() && world.saved.is_none());
}

#[test]
fn every_failed_save_stops_a_delivery() {
    let image = Attachment {
        source: ImageSource::DiscordAttachment,
        id: "1".into(),
        url: "u".into(),
        content_type: None,
        size: 1,
    };
    let mut state = State::default();
    let mut e = entry("s", false);
    e.pending = Some(Pending { attachment: Some(image), ..pending("k", "t") });
    state.put("a:1", e);
    let mut stage = Stage::Begin;
    let mut input = Input::Done;
    let mut steps = 0;
    let mut published = false;
    // Each save along the way is first reported as failed, then as done.
    loop {
        let (next, action) = App::deliver(&mut state, "a:1", false, stage, input, at(0)).unwrap();
        stage = next;
        input = match action {
            Action::Finish => break,
            Action::Save => {
                steps += 1;
                let mut other = copy(&state);
                let failed =
                    App::deliver(&mut other, "a:1", false, stage, Input::Failed, at(0));
                assert_eq!(failed.err(), Some(EngineError::Unsaved));
                Input::Done
            }
            Action::Upload(..) => Input::Media("m".into()),
            Action::Publish(_) => {
                published = true;
                let mut other = copy(&state);
                let failed =
                    App::deliver(&mut other, "a:1", false, stage, Input::Failed, at(0));
                assert_eq!(failed.err(), Some(EngineError::Publication));
                assert!(other.get("a:1").unwrap().pending.is_some());
                Input::Done
            }
            _ => unreachable!(),
        };
    }
    assert!(published);
    assert_eq!(steps, 3);
    assert_eq!(
        EngineError::Unsaved.message(),
        "State could not be saved; nothing more is published"
    );
}

#[test]
fn failed_save_of_an_end_or_of_a_cursor_is_told() {
    let mut app = app();
    let mut world = World::new();
    world.live(&app, "3", false).unwrap();
    world.fail_save = true;
    assert_eq!(
        world.check(&app, 404, r#"{"code":10065}"#, false).unwrap_err(),
        EngineError::Unsaved.message()
    );
    assert_eq!(world.load().entries.len(), 1);
    // The first message of a channel is only remembered; that has to be saved too.
    app.config.servers = vec![server()];
    let mut state = State::default();
    world.message = r#"[{"id":"100","type":0,"content":"x"}]"#.into();
    assert_eq!(
        world.share(&app, &mut state, &occupied("1"), 200).unwrap_err(),
        EngineError::Unsaved.message()
    );
    assert_eq!(world.posts.len(), 1);
    // So does a message that is about to be shared.
    world.fail_save = false;
    let mut state = State::default();
    world.share(&app, &mut state, &occupied("1"), 200).unwrap();
    world.message = r#"[{"id":"200","type":0,"content":"y"}]"#.into();
    world.fail_save = true;
    assert_eq!(
        world.share(&app, &mut state, &occupied("1"), 200).unwrap_err(),
        EngineError::Unsaved.message()
    );
    assert_eq!(world.posts.len(), 1);
}

#[test]
fn a_reading_that_fails_ends_the_run() {
    let mut app = app();
    app.config.servers = vec![server()];
    app.config.streamers[0].guild_id = "7".into();
    let live = r#"{"channel_id":"3","session_id":"s","self_stream":true}"#;
    let reply = |reading: Reading| match reading {
        Reading::State => Reply::State(State::default()),
        Reading::Account => Reply::Answer(200, Json::Null),
        Reading::Servers => Reply::Targets(
            parse_guild(
                &server(),
                &guild(r#"{"user_id":"20","channel_id":"3","session_id":"a"}"#),
            )
            .unwrap(),
        ),
        Reading::Person(_) => Reply::Answer(200, json(live)),
    };
    let step = |survey: Survey, reply: Reply| survey.step(&app.config, reply);
    let order =
        [Reading::State, Reading::Account, Reading::Servers, Reading::Person(0)];
    for broken in 0..order.len() {
        let mut survey = Survey::begin();
        for (i, reading) in order.into_iter().enumerate() {
            assert_eq!(survey.reading, reading);
            if i == broken {
                assert_eq!(step(survey, Reply::Failed).err(), Some(RunError::Unread));
                break;
            }
            survey = match step(survey, reply(reading)) {
                Ok(Surveyed::Ask(next)) => next,
                _ => unreachable!(),
            };
        }
    }
    // With all of them read, both targets are known.
    let mut survey = Survey::begin();
    let (state, observed) = loop {
        let answer = reply(survey.reading);
        match step(survey, answer).ok().unwrap() {
            Surveyed::Ask(next) => survey = next,
            Surveyed::Ready(state, observed) => break (state, observed),
        }
    };
    assert_eq!((state.entries.len(), observed.len()), (0, 2));
    assert!(observed.get("1:voice-3").is_some() && observed.get("7:2").is_some());
    // An answer that is an error is one too.
    let refused = Survey { reading: Reading::Account, ..Survey::begin() };
    let error = step(refused, Reply::Answer(401, Json::Null)).err().unwrap();
    assert_eq!(error, RunError::Account(401));
    assert_eq!(
        error.message(),
        "Mastodon credentials (read:accounts required): HTTP 401 (body redacted)"
    );
    let hidden = Survey { reading: Reading::Person(0), ..Survey::begin() };
    assert!(matches!(
        step(hidden, Reply::Answer(403, json(r#"{"code":50001}"#))),
        Err(RunError::Discord(_))
    ));
    let stray = Survey { reading: Reading::Person(9), ..Survey::begin() };
    assert_eq!(
        step(stray, Reply::Answer(200, json(live))).err().unwrap().message(),
        "Something could not be read; nothing was changed"
    );
    let mut state = State::default();
    state.put("malformed", entry("s", true));
    let last = Survey { state, reading: Reading::Person(0), ..Survey::begin() };
    assert_eq!(
        step(last, Reply::Answer(200, json(live))).err(),
        Some(RunError::Engine(EngineError::MalformedTarget))
    );
}

#[test]
fn metadata_changes_are_throttled_unchanged_information_never_reposts() {
    let mut e = entry("session", true);
    e.metadata_fingerprint = Some("old".into());
    e.last_post = Some(at(-29));
    assert!(!metadata_due(&e, "new", at(0), 30));
    assert!(metadata_due(&e, "new", at(1), 30));
    assert!(!metadata_due(&e, "old", at(10 * 24 * 60), 30));
    e.metadata_fingerprint = None; // migrate one time from v0.1.0
    assert!(metadata_due(&e, "new", at(0), 30));
}

#[test]
fn participant_icons_upload_once_and_survive_status_retry() {
    let mut world = World::new();
    let mut state = State::default();
    let person = |name: &str, url: &str| Avatar {
        name: name.into(),
        url: url.into(),
        streaming: false,
        game: None,
    };
    let mut e = entry("voice-3", false);
    e.pending = Some(Pending {
        metadata_fingerprint: Some("two-people".into()),
        avatars: vec![
            person("Alice", "http://invalid.local/a.png"),
            person("Bob", "http://invalid.local/b.png"),
        ],
        ..pending("icons-key", "参加者：Alice、Bob")
    });
    state.put("1:voice-3", e);
    world.fail_post = true;
    assert_eq!(
        world.deliver(&mut state, "1:voice-3", at(0)).unwrap_err(),
        EngineError::Publication.message()
    );
    let mut reloaded = world.load();
    assert_eq!(
        reloaded.get("1:voice-3").unwrap().pending.unwrap().media_id.as_deref(),
        Some("icons")
    );
    world.fail_post = false;
    world.deliver(&mut reloaded, "1:voice-3", at(1)).unwrap();
    assert_eq!(world.uploads.len(), 1);
    assert!(world.uploads[0].contains("Alice、Bob") && world.uploads[0].contains("灰色の人型"));
    assert_eq!(world.posts.len(), 2);
    for post in &world.posts {
        assert_eq!(post.media_id.as_deref(), Some("icons"));
        assert_eq!(post.key, "icons-key");
    }
}

#[test]
fn metadata_delivery_persists_fingerprint_and_does_not_read_chat() {
    let mut world = World::new();
    let mut state = State::default();
    let mut e = entry("old-session", true);
    assert!(e.metadata_fingerprint.is_none());
    e.pending = Some(Pending {
        is_start: false,
        metadata_fingerprint: Some("new-details".into()),
        ..pending("metadata-key", "automatic game details\nhttps://discord.com/channels/1/3")
    });
    state.put("1:2", e);
    world.saved = Some(copy(&state));
    world.deliver(&mut state, "1:2", at(0)).unwrap();
    let reloaded = world.load();
    assert_eq!(
        reloaded.get("1:2").unwrap().metadata_fingerprint.as_deref(),
        Some("new-details")
    );
    assert_eq!(world.posts[0].text, "automatic game details");
    assert_eq!(world.posts[0].key, "metadata-key");
    assert_eq!((world.posts.len(), world.reads), (1, 0));
}

#[test]
fn channel_sharing_requires_occupants_and_only_publishes_the_latest_change() {
    let mut app = app();
    app.config.streamers.clear();
    app.config.servers = vec![server()];
    let mut world = World::new();
    let mut state = State::default();
    let inside = occupied("1");
    world.share(&app, &mut state, &Table::new(), 200).unwrap();
    assert_eq!((world.reads, world.posts.len()), (0, 0));
    for (id, expected_posts) in [(100, 0), (100, 0), (200, 1), (200, 1), (300, 2), (300, 2)] {
        world.message = format!(
            r#"[{{"id":"{id}","edited_timestamp":null,"type":0,"author":{{"username":"Alice"}},
                "content":"話題{id} https://example.invalid/video",
                "embeds":[{{"url":"https://example.invalid/video","title":"動画のタイトル"}}]}}]"#
        );
        world.share(&app, &mut state, &inside, 200).unwrap();
        assert_eq!(world.posts.len(), expected_posts);
    }
    assert!(world.posts[0].text.contains("話題200"));
    assert!(world.posts[0].text.contains("動画のタイトル"));
    assert_eq!(world.load().get("1:share-9").unwrap().session_id, "300");
    // A read failure preserves the cursor and cannot be mistaken for an empty channel.
    assert!(world.share(&app, &mut state, &inside, 403).is_err());
    assert_eq!(state.get("1:share-9").unwrap().session_id, "300");
}

#[test]
fn voice_checks_preserve_shared_channel_cursors() {
    let mut app = app();
    let mut world = World::new();
    let mut state = State::default();
    let mut cursor = entry("100", true);
    cursor.metadata_fingerprint = Some("baseline".into());
    state.put("1:share-9", cursor);
    world.saved = Some(copy(&state));
    assert!(!world.check(&app, 404, r#"{"code":10065}"#, false).unwrap());
    assert_eq!(world.load().get("1:share-9").unwrap().session_id, "100");
    // So it is where the server itself is watched.
    app.config.servers = vec![server()];
    assert!(!world.run(&app, Vec::new(), Vec::new(), false, at(0)).unwrap());
    assert_eq!(world.load().get("1:share-9").unwrap().session_id, "100");
}

#[test]
fn failed_shared_message_waits_for_occupancy_and_reuses_its_key() {
    let mut app = app();
    app.config.servers = vec![server()];
    let mut world = World::new();
    let mut state = State::default();
    let mut e = entry("200", true);
    e.pending = Some(Pending {
        shared_message: true,
        is_start: false,
        metadata_fingerprint: Some("new-message".into()),
        ..pending("shared-message-key", "通話中の話題")
    });
    state.put("1:share-9", e);
    let inside = occupied("1");
    world.fail_post = true;
    assert_eq!(
        world.share(&app, &mut state, &inside, 200).unwrap_err(),
        EngineError::Publication.message()
    );
    let mut restored = world.load();
    world.share(&app, &mut restored, &Table::new(), 200).unwrap();
    assert_eq!(world.posts.len(), 1);
    app.config.servers[0].share_channel_id = None;
    world.share(&app, &mut restored, &inside, 200).unwrap();
    assert_eq!(world.posts.len(), 1);
    assert!(restored.get("1:share-9").unwrap().pending.is_some());
    app.config.servers[0].share_channel_id = Some("9".into());
    world.fail_post = false;
    world.share(&app, &mut restored, &inside, 200).unwrap();
    assert_eq!((world.posts.len(), world.reads), (2, 0)); // No new message read/post in the recovery run.
    assert!(world.posts.iter().all(|p| p.key == "shared-message-key"));
    assert!(restored.get("1:share-9").unwrap().pending.is_none());
}

fn guild(states: &str) -> Json {
    json(&format!(
        r#"{{"channels":[{{"id":"3","name":"room"}}],"members":[{{"user":{{"id":"20","username":"Alice"}}}},{{"user":{{"id":"21","username":"Bob"}}}}],"voice_states":[{states}]}}"#
    ))
}

#[test]
fn calls_are_announced_updated_and_announced_anew() {
    let mut app = app();
    app.config.streamers.clear();
    app.config.servers = vec![server()];
    let mut world = World::new();
    let alice = r#"{"user_id":"20","channel_id":"3","session_id":"a"}"#;
    let bob = r#"{"user_id":"21","channel_id":"3","session_id":"b"}"#;
    let both = format!("{alice},{bob}");
    let found = |states: &str| parse_guild(&server(), &guild(states)).unwrap();
    // Somebody joins.
    assert!(world.run(&app, found(alice), Vec::new(), false, at(0)).unwrap());
    assert!(world.posts[0].text.starts_with("💬 Discordの通話参加を検知しました"));
    assert!(world.uploads.is_empty());
    // Nothing changes, however much time passes.
    world.run(&app, found(alice), Vec::new(), false, at(600)).unwrap();
    assert_eq!(world.posts.len(), 1);
    // A second person joins: a card is made of the two.
    world.run(&app, found(&both), Vec::new(), false, at(630)).unwrap();
    assert_eq!(world.posts.len(), 2);
    assert!(world.posts[1].text.contains("参加者：Alice、Bob"));
    assert_eq!(world.posts[1].media_id.as_deref(), Some("icons"));
    // A change within the interval waits.
    world.run(&app, found(bob), Vec::new(), false, at(640)).unwrap();
    assert_eq!(world.posts.len(), 2);
    // Everybody leaves, and somebody comes back.
    assert!(!world.run(&app, found(""), Vec::new(), false, at(650)).unwrap());
    assert_eq!(world.load().entries.len(), 0);
    world.run(&app, found(alice), Vec::new(), false, at(660)).unwrap();
    assert_eq!(world.posts.len(), 3);
    // A stream takes the call's place.
    let live = r#"{"user_id":"20","channel_id":"3","session_id":"a","self_stream":true}"#;
    world.run(&app, found(live), Vec::new(), false, at(690)).unwrap();
    assert!(world.posts[3].text.starts_with("🔴 Alice さんのDiscord配信を検知しました"));
    assert_eq!(world.load().entries.len(), 1);
}

#[test]
fn images_are_passed_on_once_after_the_start() {
    let mut app = app();
    app.config.streamers.clear();
    let mut world = World::new();
    let person = Streamer {
        announcement_channel_id: Some("5".into()),
        screenshots: true,
        ..streamer()
    };
    let voice = || {
        Discord::voice(
            &person,
            200,
            &json(r#"{"channel_id":"3","session_id":"s","self_stream":true}"#),
        )
        .unwrap()
    };
    let message = |minute: i64| Announcement {
        id: "9".into(),
        author: User { id: "2".into(), bot: false },
        content: "!sirucord Chess".into(),
        timestamp: at(minute),
        attachments: vec![Attachment {
            source: ImageSource::DiscordAttachment,
            id: "77".into(),
            url: "https://cdn.discordapp.com/attachments/1/2/p.png".into(),
            content_type: Some("image/png".into()),
            size: 100,
        }],
        webhook_id: None,
    };
    let seen = |voice| vec![Observed { streamer: person.clone(), voice }];
    world.messages = vec![message(-1)];
    world.run(&app, Vec::new(), seen(voice()), false, at(0)).unwrap();
    assert_eq!(
        world.posts[0].text,
        "🔴 Streamer さんのDiscord配信開始を検知しました\n内容：Chess"
    );
    assert!(world.posts[0].media_id.is_none());
    // The image is uploaded, but the post fails; the image stays uploaded.
    world.messages = vec![message(10)];
    world.fail_post = true;
    assert!(world.run(&app, Vec::new(), seen(voice()), false, at(30)).is_err());
    assert_eq!(world.uploads.len(), 1);
    world.fail_post = false;
    world.run(&app, Vec::new(), seen(voice()), false, at(31)).unwrap();
    assert_eq!(world.uploads.len(), 1);
    assert_eq!(world.posts[2].media_id.as_deref(), Some("media-77"));
    assert_eq!(world.posts[2].text, "📷 Streamer さんから配信スクリーンショット\n内容：Chess");
    // The same image is not passed on again.
    world.messages = vec![message(10)];
    world.run(&app, Vec::new(), seen(voice()), false, at(90)).unwrap();
    assert_eq!(world.posts.len(), 3);
}

#[test]
fn pending_images_are_read_anew() {
    let app = app();
    let mut world = World::new();
    let mut state = State::default();
    let mut e = entry("voice-session", true);
    e.pending = Some(Pending {
        is_start: false,
        attachment: Some(Attachment {
            source: ImageSource::DiscordAttachment,
            id: "1".into(),
            url: "https://expired".into(),
            content_type: None,
            size: 1,
        }),
        ..pending("key", "text")
    });
    state.put("1:2", e);
    world.saved = Some(state);
    // Without a channel to read, nothing can be done.
    assert_eq!(
        world.live(&app, "3", false).unwrap_err(),
        EngineError::ImageChannel.message()
    );
    let seen = || {
        vec![Observed {
            streamer: Streamer { announcement_channel_id: Some("5".into()), ..streamer() },
            voice: None,
        }]
    };
    // Nor without the image.
    assert_eq!(
        world.run(&app, Vec::new(), seen(), false, at(0)).unwrap_err(),
        EngineError::ImageGone.message()
    );
    assert!(world.load().get("1:2").unwrap().pending.is_some());
}

#[test]
fn decorations_do_not_hold_up_a_post() {
    let mut world = World::new();
    world.fail_upload = true;
    let mut state = State::default();
    let image = |source: ImageSource| Attachment {
        source,
        id: "1".into(),
        url: "u".into(),
        content_type: None,
        size: 1,
    };
    let mut e = entry("s", false);
    e.pending = Some(Pending {
        attachment: Some(image(ImageSource::ActivityAsset)),
        ..pending("k", "t")
    });
    state.put("a:1", e);
    let mut e = entry("s", false);
    e.pending = Some(Pending {
        attachment: Some(image(ImageSource::DiscordAttachment)),
        ..pending("k", "t")
    });
    state.put("a:2", e);
    world.deliver(&mut state, "a:1", at(0)).unwrap();
    assert_eq!(world.posts.len(), 1);
    assert!(world.posts[0].media_id.is_none());
    assert_eq!(
        world.deliver(&mut state, "a:2", at(0)).unwrap_err(),
        EngineError::Upload.message()
    );
    assert!(world.deliver(&mut state, "missing", at(0)).is_ok());
}

#[test]
fn completing_touches_one_target_only() {
    let mut state = State::default();
    let mut e = entry("s", false);
    e.last_attachment = Some("1".into());
    e.pending = Some(Pending {
        attachment: Some(Attachment {
            source: ImageSource::DiscordAttachment,
            id: "2".into(),
            url: "u".into(),
            content_type: None,
            size: 1,
        }),
        ..pending("k", "t")
    });
    state.put("a", e.clone());
    state.put("b", e);
    complete(&mut state, "a", at(5));
    let a = state.get("a").unwrap();
    assert!(a.announced && a.pending.is_none());
    assert_eq!(a.last_attachment.as_deref(), Some("2"));
    assert_eq!(a.last_post.unwrap().seconds, at(5).seconds);
    let b = state.get("b").unwrap();
    assert!(!b.announced && b.pending.is_some() && b.last_post.is_none());
    assert!(state.get("c").is_none());
}

#[test]
fn deliveries_are_resolved_by_hand() {
    let mut state = State::default();
    let mut e = entry("s", false);
    e.pending = Some(Pending { attempted_at: Some(at(0)), ..pending("old-key", "t") });
    state.put("1:2", e);
    state.put("1:3", entry("s", true));
    let open = unresolved(&state);
    assert_eq!(open.len(), 1);
    assert_eq!((open[0].target.as_str(), open[0].key.as_str()), ("1:2", "old-key"));
    resolve_retry(&mut state, "1:2").unwrap();
    let p = state.get("1:2").unwrap().pending.unwrap();
    assert!(p.attempted_at.is_none());
    assert_eq!(p.key.len(), 36);
    assert_eq!((&p.key[8..9], &p.key[14..15]), ("-", "4"));
    resolve_posted(&mut state, "1:2", at(1)).unwrap();
    assert!(state.get("1:2").unwrap().announced);
    assert_eq!(resolve_posted(&mut state, "1:2", at(1)), Err(EngineError::NothingPending));
    assert_eq!(resolve_retry(&mut state, "1:3"), Err(EngineError::NothingPending));
    assert_eq!(resolve_retry(&mut state, "9:9"), Err(EngineError::NothingPending));
}

#[test]
fn remembered_targets_are_looked_at_where_they_are_configured() {
    let mut state = State::default();
    state.put("1:voice-3", entry("s", true));
    state.put("8:2", entry("s", true));
    state.put("1:share-9", entry("1", true));
    let none = || observe(&Vec::new(), &Vec::new());
    let all = add_offline(none(), &state, &vec![server()]).ok().unwrap();
    assert_eq!(all.len(), 1);
    assert_eq!(all.row(0).key, "1:voice-3");
    assert_eq!(all.row(0).value.streamer.display_name, "Discord配信者");
    assert!(all.row(0).value.voice.is_none());
    state.put("malformed", entry("s", true));
    assert_eq!(
        add_offline(none(), &state, &vec![server()]).err(),
        Some(EngineError::MalformedTarget)
    );
}

#[test]
fn targets_are_counted() {
    let live = r#"{"user_id":"20","channel_id":"3","session_id":"a","self_stream":true}"#;
    let found = parse_guild(&server(), &guild(live)).unwrap();
    let gone = vec![Observed { streamer: streamer(), voice: None }];
    let observed = observe(&found, &gone);
    let counts = tally(&observed);
    assert_eq!(
        counts.summary(),
        "Checked 2 target(s); 1 live stream(s); 0 occupied channel(s) without streams."
    );
    assert_eq!(
        counts.metadata().unwrap(),
        "Automatic metadata: 0 stream(s) with activity details; 0 with artwork."
    );
    let guilds = occupied_guilds(&observed);
    assert!(guilds.get("1").is_some() && guilds.len() == 1);
    assert!(tally(&observe(&Vec::new(), &gone)).metadata().is_none());
    assert_eq!(occupied_guilds(&observe(&Vec::new(), &gone)).len(), 0);
}

#[test]
fn pending_announcements_have_kinds() {
    let start = pending("k", "t");
    assert_eq!(start.kind(), Kind::Start);
    let update = Pending {
        is_start: false,
        metadata_fingerprint: Some("f".into()),
        ..pending("k", "t")
    };
    assert_eq!(update.kind().text(), "stream information update");
    let image = Pending { is_start: false, ..pending("k", "t") };
    assert_eq!(image.kind().text(), "screenshot");
}

#[test]
fn links_into_discord_are_stripped() {
    assert_eq!(
        strip_links("a\r\nhttps://discord.com/channels/1\nb\n"),
        "a\nb"
    );
    assert_eq!(strip_links("see https://discord.com/channels/1"), "see https://discord.com/channels/1");
}

#[test]
fn older_messages_and_other_servers_are_left_alone() {
    let mut app = app();
    app.config.servers = vec![server(), Server { guild_id: "8".into(), ..server() }];
    let mut world = World::new();
    let mut state = State::default();
    let mut cursor = entry("300", true);
    cursor.metadata_fingerprint = Some("seen".into());
    state.put("1:share-9", cursor);
    state.put("8:share-9", entry("5", true));
    let inside = occupied("1");
    for message in [r#"[{"id":"200","type":0,"content":"x"}]"#, "[]"] {
        world.message = message.into();
        world.share(&app, &mut state, &inside, 200).unwrap();
        assert_eq!(state.get("1:share-9").unwrap().session_id, "300");
        assert_eq!((world.posts.len(), world.saves), (0, 0));
    }
    world.message = r#"[{"id":"400","type":0,"content":"x"}]"#.into();
    world.share(&app, &mut state, &inside, 200).unwrap();
    assert_eq!(state.get("1:share-9").unwrap().session_id, "400");
    assert_eq!(world.posts.len(), 1);
    let other = state.get("8:share-9").unwrap();
    assert_eq!(other.session_id, "5");
    assert!(other.metadata_fingerprint.is_none() && other.pending.is_none());
}
