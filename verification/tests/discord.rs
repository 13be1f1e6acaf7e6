use serde_json::Value;
use sirucord::config::{Server, Streamer};
use sirucord::discord::{
    activity_title, clean, parse_guild, Discord, DiscordError, Target, Voice,
};
use sirucord::gateway::{gateway, identify, Snapshot, Step};
use sirucord::http::Method;
use sirucord::json::{named, Json};

fn convert(value: &Value) -> Json {
    match value {
        Value::Null => Json::Null,
        Value::Bool(b) => Json::Bool(*b),
        Value::Number(n) => match n.as_u64() {
            Some(n) => Json::Unsigned(n),
            None => Json::Number(n.to_string()),
        },
        Value::String(s) => Json::text(s),
        Value::Array(items) => Json::list(items.iter().map(convert).collect()),
        Value::Object(members) => {
            Json::object(members.iter().map(|(k, v)| named(k, convert(v))).collect())
        }
    }
}

fn json(text: &str) -> Json {
    convert(&serde_json::from_str(text).unwrap())
}

fn server(title: &str) -> Server {
    Server {
        guild_id: "1".into(),
        use_activity: false,
        voice_channel_ids: vec!["2".into()],
        default_title: title.into(),
        announcement_channel_id: None,
        share_channel_id: None,
        screenshots: false,
    }
}

fn receive(snapshot: Snapshot, servers: &Vec<Server>, event: &str) -> Result<(Snapshot, Step), DiscordError> {
    let hello = identify("test-token", servers, "linux");
    snapshot.receive(servers, &hello, &json(event))
}

#[test]
fn gateway_waits_for_hello_identifies_and_handles_heartbeat() {
    let servers = vec![server("title")];
    let snapshot = Snapshot::new(&servers);
    let (snapshot, step) =
        receive(snapshot, &servers, r#"{"op":10,"d":{"heartbeat_interval":1000}}"#).ok().unwrap();
    let Step::Begin(interval, message) = step else {
        panic!("no greeting");
    };
    assert_eq!(interval, 1000);
    assert_eq!(message.get("op").as_unsigned(), Some(2));
    assert_eq!(message.get("d").get("intents").as_unsigned(), Some(129));
    assert_eq!(message.get("d").get("token").as_text(), Some("test-token"));
    let (snapshot, step) =
        receive(snapshot, &servers, r#"{"op":0,"s":1,"t":"READY","d":{"guilds":[{"id":"1"}]}}"#)
            .ok()
            .unwrap();
    assert!(matches!(step, Step::Wait));
    let (snapshot, step) = receive(snapshot, &servers, r#"{"op":1,"d":null}"#).ok().unwrap();
    let Step::Send(beat) = step else {
        panic!("no heartbeat");
    };
    assert_eq!(beat.to_text(), r#"{"op":1,"d":1}"#);
    let (snapshot, _) = receive(snapshot, &servers, r#"{"op":11,"d":null}"#).ok().unwrap();
    let (snapshot, step) = receive(snapshot, &servers, r#"{"op":0,"s":2,"t":"GUILD_CREATE","d":{"id":"1","members":[{"user":{"id":"3","username":"Streamer"}}],"channels":[{"id":"2"}],"voice_states":[{"user_id":"3","channel_id":"2","session_id":"session","self_stream":true}]}}"#).ok().unwrap();
    assert!(matches!(step, Step::Finish));
    let result = snapshot.into_found();
    assert_eq!(result.len(), 1);
    assert_eq!(result[0].0.display_name, "Streamer");
}

#[test]
fn gateway_missing_configured_guild_fails_closed() {
    let servers = vec![server("title")];
    let snapshot = Snapshot::new(&servers);
    let (snapshot, _) =
        receive(snapshot, &servers, r#"{"op":10,"d":{"heartbeat_interval":45000}}"#).ok().unwrap();
    let err = receive(snapshot, &servers, r#"{"op":0,"s":1,"t":"READY","d":{"guilds":[]}}"#)
        .err()
        .unwrap();
    assert!(err.message().contains("not a member"));
}

#[test]
fn discovers_only_human_streams_in_allowed_channels() {
    let server = server("test");
    let data = json(r#"{"channels":[{"id":"2"}],"members":[{"user":{"id":"3","username":"name"},"nick":"nickname"},{"user":{"id":"4","bot":true}}],"voice_states":[{"user_id":"3","channel_id":"2","session_id":"s","self_stream":true},{"user_id":"4","channel_id":"2","session_id":"b","self_stream":true},{"user_id":"5","channel_id":"9","session_id":"x","self_stream":true}]}"#);
    let found = parse_guild(&server, &data).unwrap();
    assert_eq!(found.len(), 1);
    assert_eq!(found[0].0.display_name, "nickname");
    let activity = json(r#"{"presences":[{"user":{"id":"3"},"activities":[{"type":4,"name":"custom status"},{"type":0,"name":"Minecraft"}]}]}"#);
    assert_eq!(
        activity_title(&activity, "3").unwrap(),
        "Minecraft（Discordのプレイ中表示）"
    );
    assert!(activity_title(&activity, "9").is_none());
    assert!(parse_guild(&server, &json(r#"{"members":[],"channels":[],"voice_states":[]}"#)).is_err());
}

#[test]
fn snapshot_is_discarded_by_anything_unexpected() {
    let servers = vec![server("title")];
    let error = |event: &str| receive(Snapshot::new(&servers), &servers, event).err().unwrap();
    assert_eq!(error(r#"{"op":10,"d":{}}"#), DiscordError::MissingInterval);
    assert_eq!(error(r#"{"op":10,"d":{"heartbeat_interval":0}}"#), DiscordError::InvalidInterval);
    assert_eq!(error(r#"{"op":7}"#), DiscordError::Reconnect);
    assert_eq!(error(r#"{"op":9}"#), DiscordError::Reconnect);
    assert_eq!(error(r#"{"op":0,"t":"READY","d":{}}"#), DiscordError::MissingGuilds);
    assert_eq!(error(r#"{"op":0,"t":"GUILD_CREATE","d":{}}"#), DiscordError::MissingGuildId);
    assert_eq!(
        error(r#"{"op":0,"t":"GUILD_CREATE","d":{"id":"1","unavailable":true}}"#),
        DiscordError::Unavailable
    );
    assert_eq!(
        error(r#"{"op":0,"t":"GUILD_CREATE","d":{"id":"1"}}"#),
        DiscordError::MissingMembers
    );
}

#[test]
fn unanswered_heartbeat_ends_the_snapshot() {
    let servers = vec![server("title")];
    let (snapshot, beat) = Snapshot::new(&servers).tick().ok().unwrap();
    assert_eq!(beat.to_text(), r#"{"op":1,"d":null}"#);
    let (answered, _) = receive(snapshot, &servers, r#"{"op":11}"#).ok().unwrap();
    let (unanswered, _) = answered.tick().ok().unwrap();
    assert_eq!(unanswered.tick().err().unwrap(), DiscordError::Heartbeat);
}

#[test]
fn snapshot_waits_for_every_server() {
    let mut second = server("title");
    second.guild_id = "5".into();
    second.use_activity = true;
    let servers = vec![server("title"), second];
    let hello = identify("t", &servers, "linux");
    assert_eq!(hello.get("d").get("intents").as_unsigned(), Some(385));
    let guild = |id: &str| {
        format!(r#"{{"op":0,"t":"GUILD_CREATE","d":{{"id":"{id}","members":[],"channels":[{{"id":"2"}}],"voice_states":[]}}}}"#)
    };
    let (snapshot, step) = receive(Snapshot::new(&servers), &servers, &guild("1")).ok().unwrap();
    assert!(matches!(step, Step::Wait));
    let (snapshot, step) = receive(snapshot, &servers, &guild("9")).ok().unwrap();
    assert!(matches!(step, Step::Wait));
    let (_, step) = receive(snapshot, &servers, &guild("5")).ok().unwrap();
    assert!(matches!(step, Step::Finish));
}

#[test]
fn gateway_address_is_discords_own() {
    let answer = |remaining: u64, url: &str| {
        json(&format!(r#"{{"session_start_limit":{{"remaining":{remaining}}},"url":"{url}"}}"#))
    };
    assert_eq!(
        gateway(&answer(1, "wss://gateway.discord.gg")).unwrap(),
        "wss://gateway.discord.gg/?v=10&encoding=json"
    );
    assert_eq!(gateway(&answer(0, "wss://gateway.discord.gg")), Err(DiscordError::Budget));
    assert_eq!(gateway(&answer(1, "nothing")), Err(DiscordError::GatewayUrl));
    assert_eq!(gateway(&answer(1, "ws://gateway.discord.gg")), Err(DiscordError::GatewayHost));
    assert_eq!(
        gateway(&answer(1, "wss://gateway.discord.gg.evil.test")),
        Err(DiscordError::GatewayHost)
    );
    assert_eq!(
        gateway(&json(r#"{"session_start_limit":{"remaining":1}}"#)),
        Err(DiscordError::MissingGatewayUrl)
    );
}

fn occupied(found: &[Target]) -> Vec<(String, Vec<String>)> {
    found
        .iter()
        .filter(|(_, voice)| !voice.self_stream)
        .map(|(s, voice)| {
            (s.key(), voice.context.as_ref().unwrap().voice_members.clone())
        })
        .collect()
}

#[test]
fn occupied_channels_without_streams_are_targets() {
    let server = server("test");
    let data = |states: &str| {
        json(&format!(r#"{{"channels":[{{"id":"2","name":"room"}}],"members":[{{"user":{{"id":"30","username":"Bob"}}}},{{"user":{{"id":"21","username":"Alice"}}}},{{"user":{{"id":"4","bot":true}}}}],"voice_states":[{states}]}}"#))
    };
    let bob = r#"{"user_id":"30","channel_id":"2","session_id":"b"}"#;
    let alice = r#"{"user_id":"21","channel_id":"2","session_id":"a"}"#;
    let bot = r#"{"user_id":"4","channel_id":"2","session_id":"c"}"#;
    let found = parse_guild(&server, &data(&format!("{bob},{alice},{bot},{bob}"))).unwrap();
    assert_eq!(
        occupied(&found),
        [("1:voice-2".to_owned(), vec!["Alice".to_owned(), "Bob".to_owned()])]
    );
    let context = found[0].1.context.as_ref().unwrap();
    assert_eq!((context.participants, context.avatars.len()), (2, 2));
    assert_eq!(context.channel_name, "room");
    assert_eq!(found[0].1.session_id, "voice-2");
    // The order in which Discord lists people is of no account.
    let again = parse_guild(&server, &data(&format!("{alice},{bob}"))).unwrap();
    assert_eq!(occupied(&again), occupied(&found));
    // Bots alone are nobody.
    assert!(parse_guild(&server, &data(bot)).unwrap().is_empty());
    assert!(parse_guild(&server, &data("")).unwrap().is_empty());
    // A stream takes the channel's place.
    let live = r#"{"user_id":"21","channel_id":"2","session_id":"a","self_stream":true}"#;
    let found = parse_guild(&server, &data(&format!("{live},{bob}"))).unwrap();
    assert_eq!(found.len(), 1);
    assert!(found[0].1.self_stream);
}

#[test]
fn incomplete_servers_are_errors() {
    let server = server("test");
    for (text, error) in [
        (r#"{"channels":[{"id":"2"}],"voice_states":[]}"#, DiscordError::MissingMembers),
        (r#"{"members":[],"voice_states":[]}"#, DiscordError::MissingChannels),
        (r#"{"members":[],"channels":[{"id":"3"}],"voice_states":[]}"#, DiscordError::InaccessibleChannel),
        (r#"{"members":[],"channels":[{"id":"2"}]}"#, DiscordError::MissingStates),
        (r#"{"members":[],"channels":[{"id":"2"}],"voice_states":[{"channel_id":"2"}]}"#, DiscordError::VoiceState),
        (r#"{"members":[],"channels":[{"id":"2"}],"voice_states":[{"channel_id":"2","session_id":"s","self_stream":null}]}"#, DiscordError::VoiceState),
        (r#"{"members":[],"channels":[{"id":"2"}],"voice_states":[{"channel_id":"2","session_id":"s","self_stream":true}]}"#, DiscordError::MissingUserId),
        (r#"{"members":[],"channels":[{"id":"2"}],"voice_states":[{"user_id":"3","channel_id":"2","session_id":"s","self_stream":true}]}"#, DiscordError::AbsentMember),
        (r#"{"members":[],"channels":[{"id":"2"}],"voice_states":[{"user_id":"3","channel_id":"2","session_id":"s"}]}"#, DiscordError::AbsentMember),
        (r#"{"members":[{"user":{"id":"x"}}],"channels":[{"id":"2"}],"voice_states":[{"user_id":"x","channel_id":"2","session_id":"s"}]}"#, DiscordError::MemberId),
    ] {
        assert_eq!(parse_guild(&server, &json(text)).err(), Some(error), "{text}");
    }
}

#[test]
fn activities_give_titles_and_contexts_where_they_are_used() {
    let mut server = server("test");
    server.use_activity = true;
    let data = json(r#"{"channels":[{"id":"2","name":"room"}],"members":[{"user":{"id":"3","username":"name"}}],"voice_states":[{"user_id":"3","channel_id":"2","session_id":"s","self_stream":true}],"presences":[{"user":{"id":"3"},"activities":[{"type":0,"name":"Minecraft"}]}]}"#);
    let found = parse_guild(&server, &data).unwrap();
    assert_eq!(found[0].0.default_title, "Minecraft（Discordのプレイ中表示）");
    let context = found[0].1.context.as_ref().unwrap();
    assert_eq!((context.participants, context.activities.len()), (1, 1));
    server.use_activity = false;
    let found = parse_guild(&server, &data).unwrap();
    assert_eq!(found[0].0.default_title, "test");
    assert!(found[0].1.context.is_none());
}

#[test]
fn requests_to_discord_name_the_bot() {
    let discord = Discord { base: "https://d".into(), token: "t".into() };
    let streamer = Streamer {
        guild_id: "1".into(),
        user_id: "2".into(),
        display_name: "n".into(),
        voice_channel_ids: vec!["3".into()],
        default_title: "t".into(),
        announcement_channel_id: None,
        screenshots: false,
    };
    let request = discord.voice_request(&streamer);
    assert_eq!(request.url, "https://d/guilds/1/voice-states/2");
    assert_eq!(request.authorization.as_deref(), Some("Bot t"));
    assert_eq!(request.method, Method::Get);
    assert_eq!(discord.announcements("9").url, "https://d/channels/9/messages?limit=100");
    assert_eq!(discord.shared("9").url, "https://d/channels/9/messages?limit=1");
    assert!(discord.discover(&Vec::new()).is_none());
    assert_eq!(discord.discover(&vec![server("t")]).unwrap().url, "https://d/gateway/bot");
    let stream = json(r#"{"channel_id":"3","session_id":"s","self_stream":true}"#);
    assert!(Discord::voice(&streamer, 200, &stream).unwrap().is_some());
    let elsewhere = json(r#"{"channel_id":"4","session_id":"s","self_stream":true}"#);
    assert!(Discord::voice(&streamer, 200, &elsewhere).unwrap().is_none());
    let silent = json(r#"{"channel_id":"3","session_id":"s"}"#);
    assert!(Discord::voice(&streamer, 200, &silent).unwrap().is_none());
    assert_eq!(Discord::voice(&streamer, 200, &Json::Null).err(), Some(DiscordError::VoiceState));
    assert_eq!(
        Discord::voice(&streamer, 500, &Json::Null).err().unwrap().message(),
        "Discord voice: HTTP 500 (body redacted)"
    );
}

#[test]
fn clean_text_notifies_nobody() {
    assert_eq!(clean("a\u{7}b@c\nd", 4), "ab＠c");
    assert_eq!(clean("@", 0), "");
}

#[test]
fn voice_states_may_be_lists_of_their_parts() {
    let voice = Voice::from_json(&json(r#"["3","s",true]"#)).unwrap();
    assert_eq!((voice.channel_id.as_deref(), voice.session_id.as_str()), (Some("3"), "s"));
    assert!(voice.self_stream);
    let voice = Voice::from_json(&json(r#"[null,"s"]"#)).unwrap();
    assert!(voice.channel_id.is_none() && !voice.self_stream);
    for text in [r#"["3"]"#, r#"["3","s",null]"#, r#"["3","s",true,1]"#, r#"[3,"s"]"#, "7"] {
        assert!(Voice::from_json(&json(text)).is_none(), "{text}");
    }
}

#[test]
fn a_channel_named_twice_is_one_room() {
    let mut server = server("test");
    server.voice_channel_ids = vec!["2".into(), "2".into()];
    let data = json(r#"{"channels":[{"id":"2","name":"room"}],"members":[{"user":{"id":"30","username":"Bob"}}],"voice_states":[{"user_id":"30","channel_id":"2","session_id":"b"}]}"#);
    let found = parse_guild(&server, &data).unwrap();
    assert_eq!(occupied(&found), [("1:voice-2".to_owned(), vec!["Bob".to_owned()])]);
}
