use serde_json::Value;
use sirucord::activity::{snowflake, Activity, StreamContext};
use sirucord::json::{named, Json};

fn convert(value: &Value) -> Json {
    match value {
        Value::Null => Json::Null,
        Value::Bool(b) => Json::Bool(*b),
        Value::Number(n) => match n.as_u64() {
            Some(n) => Json::Unsigned(n),
            None => Json::Number(n.to_string()),
        },
        Value::String(s) => Json::text(s),
        Value::Array(items) => Json::list(items.iter().map(convert).collect()),
        Value::Object(members) => {
            Json::object(members.iter().map(|(k, v)| named(k, convert(v))).collect())
        }
    }
}

fn guild() -> Value {
    serde_json::from_str(
        r#"{"channels":[{"id":"10","name":"Games"}],"members":[{"user":{"id":"20"}},{"user":{"id":"21","bot":true}}],"voice_states":[{"user_id":"20","channel_id":"10"},{"user_id":"21","channel_id":"10"}],"presences":[{"user":{"id":"20"},"activities":[{"type":0,"name":"Game","details":"Ranked match","state":"Map A","timestamps":{"start":1000},"party":{"id":"secret-party","size":[2,4]},"secrets":{"join":"secret-join"},"application_id":"30","assets":{"large_image":"40","large_text":"Round 2"}},{"type":2,"name":"private listening"}]}]}"#,
    )
    .unwrap()
}

#[test]
fn extracts_automatic_details_without_unrelated_activity_or_secrets() {
    let context = StreamContext::from_guild(&convert(&guild()), "20", "10");
    assert_eq!(context.participants, 1);
    assert_eq!(context.activities.len(), 1);
    let text = context.render("User", true);
    assert!(!text.contains("https://discord.com/channels/"));
    for field in ["Ranked match", "Map A", "Round 2", "2/4", "通話参加 1人"] {
        assert!(text.contains(field));
    }
    assert!(!text.contains("private") && !context.fingerprint_text("10").contains("secret"));
    assert!(context
        .artwork()
        .unwrap()
        .url
        .ends_with("/30/40.png?size=512"));
}

#[test]
fn fingerprints_ignore_clock_and_detect_real_content_changes() {
    let original = guild();
    let mut changed = original.clone();
    changed["presences"][0]["activities"][0]["timestamps"]["start"] = Value::from(9999);
    let first = StreamContext::from_guild(&convert(&original), "20", "10").fingerprint("10");
    assert_eq!(
        first,
        StreamContext::from_guild(&convert(&changed), "20", "10").fingerprint("10")
    );
    changed["presences"][0]["activities"][0]["state"] = Value::from("Map B");
    assert_ne!(
        first,
        StreamContext::from_guild(&convert(&changed), "20", "10").fingerprint("10")
    );
}

#[test]
fn handles_missing_presence_long_unicode_and_unsafe_assets() {
    let mut data = guild();
    data["presences"][0]["activities"][0]["assets"]["large_image"] = Value::from("../../private");
    data["presences"][0]["activities"][0]["details"] = Value::from("あ".repeat(1000));
    let data = convert(&data);
    let context = StreamContext::from_guild(&data, "20", "10");
    assert!(context.artwork().is_none());
    assert!(context.render(&"名".repeat(1000), false).chars().count() <= 480);
    assert!(StreamContext::from_guild(&data, "missing", "10")
        .render("User", true)
        .contains("取得できません"));
}

#[test]
fn render_says_every_known_fact_in_order() {
    let context = StreamContext::from_guild(&convert(&guild()), "20", "10");
    assert_eq!(
        context.render("はま@", true),
        "🔴 はま＠ さんのDiscord配信を検知しました\n場所：Games／通話参加 1人\nDiscordのアクティビティ（共有画面とは一致しない場合があります）\nプレイ中：Game\n内容：Ranked match\n状態：Map A\nゲーム情報：Round 2\nゲーム内パーティー：2/4"
    );
    assert!(context
        .render("はま", false)
        .starts_with("🎮 はま さんのDiscord配信情報を更新しました\n"));
}

#[test]
fn render_lists_people_where_nobody_streams() {
    let context = StreamContext {
        voice_members: vec!["あおい".into(), "まつり".into()],
        avatars: Vec::new(),
        channel_name: "部屋".into(),
        participants: 2,
        activities: Vec::new(),
    };
    assert_eq!(
        context.render("unused", true),
        "💬 Discordの通話参加を検知しました\n場所：部屋／通話参加 2人\n現在、配信はありません\n参加者：あおい、まつり"
    );
    assert!(context
        .render("unused", false)
        .starts_with("💬 Discordの通話参加状況を更新しました\n"));
}

#[test]
fn long_text_ends_with_an_ellipsis_at_the_limit() {
    let context = StreamContext {
        voice_members: vec!["名".repeat(1000)],
        avatars: Vec::new(),
        channel_name: "部屋".into(),
        participants: 1,
        activities: Vec::new(),
    };
    let text = context.render("unused", true);
    assert_eq!(text.chars().count(), 480);
    assert!(text.ends_with('…'));
}

#[test]
fn fingerprint_is_the_digest_of_the_announced_facts() {
    let context = StreamContext {
        voice_members: Vec::new(),
        avatars: Vec::new(),
        channel_name: "a\"b".into(),
        participants: 3,
        activities: Vec::new(),
    };
    assert_eq!(
        context.fingerprint_text("10"),
        r#"["10",{"channel_name":"a\"b","participants":3,"activities":[]}]"#
    );
    let empty = StreamContext { channel_name: "x".into(), ..context };
    assert_eq!(
        empty.fingerprint("1"),
        "6c8420a2ee9e9d62ef04e4c9dbf425ce920a623128135f9c58035f7d20c4869a"
    );
}

#[test]
fn order_of_activities_does_not_matter() {
    let list = |first: &str, second: &str| {
        let text = format!(
            r#"{{"presences":[{{"user":{{"id":"20"}},"activities":[{{"type":0,"name":"{first}"}},{{"type":0,"name":"{second}"}}]}}]}}"#
        );
        StreamContext::from_guild(&convert(&serde_json::from_str(&text).unwrap()), "20", "10")
    };
    assert_eq!(list("A", "B").fingerprint("10"), list("B", "A").fingerprint("10"));
    assert_eq!(list("B", "A").activities[0].name, "A");
}

#[test]
fn only_two_activities_are_kept_by_kind_and_name() {
    let text = r#"{"presences":[{"user":{"id":"20"},"activities":[{"type":5,"name":"Race"},{"type":1,"name":"Live"},{"type":0,"name":"Game"}]}]}"#;
    let context =
        StreamContext::from_guild(&convert(&serde_json::from_str(text).unwrap()), "20", "10");
    let names: Vec<&str> = context.activities.iter().map(|a| a.name.as_str()).collect();
    assert_eq!(names, ["Game", "Live"]);
}

#[test]
fn repeated_details_are_told_once() {
    let text = r#"{"type":0,"name":"Game","details":"Same","state":"Same","assets":{"large_text":"Game"},"party":{"size":[5,4]}}"#;
    let activity = Activity::parse(&convert(&serde_json::from_str(text).unwrap())).unwrap();
    assert_eq!(activity.details.as_deref(), Some("Same"));
    assert!(activity.state.is_none() && activity.image_text.is_none() && activity.party.is_none());
    for other in [r#"{"type":2,"name":"Music"}"#, r#"{"type":0,"name":" "}"#, r#"{"name":"x"}"#] {
        assert!(Activity::parse(&convert(&serde_json::from_str(other).unwrap())).is_none());
    }
}

#[test]
fn snowflakes_are_positive_64_bit_numbers() {
    assert!(snowflake("1") && snowflake("18446744073709551615"));
    for text in ["", "0", "+1", "1a", "１", "18446744073709551616", "000000000000000000001"] {
        assert!(!snowflake(text), "{text}");
    }
}
