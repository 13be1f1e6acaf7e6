use serde_json::Value;
use sirucord::json::{named, Json};
use sirucord::sharing::{draft, render, revision, ShareError};

fn convert(value: &Value) -> Json {
    match value {
        Value::Null => Json::Null,
        Value::Bool(b) => Json::Bool(*b),
        Value::Number(n) => match n.as_u64() {
            Some(n) => Json::Unsigned(n),
            None => Json::Number(n.to_string()),
        },
        Value::String(s) => Json::text(s),
        Value::Array(items) => Json::list(items.iter().map(convert).collect()),
        Value::Object(members) => {
            Json::object(members.iter().map(|(k, v)| named(k, convert(v))).collect())
        }
    }
}

fn json(text: &str) -> Json {
    convert(&serde_json::from_str(text).unwrap())
}

#[test]
fn shares_link_title_from_discord_without_fetching_the_link() {
    let message = json(
        r#"{"type":0,"author":{"username":"Alice"},
            "content":"これ面白い https://private.invalid/video",
            "embeds":[{"url":"https://private.invalid/video","title":"動画のタイトル & ゲーム"}]}"#,
    );
    let draft = draft(&message).unwrap();
    assert!(draft.links[0].title.is_some());
    let text = render(&draft, &vec![None]);
    assert!(text.contains("動画のタイトル & ゲーム\nhttps://private.invalid/video"));
    assert!(text.contains("Alice：これ面白い"));
    assert!(!text.contains("discord.com/channels/"));
}

#[test]
fn message_edits_change_identity_but_delayed_embed_population_does_not() {
    let mut message: Value = serde_json::from_str(r#"{"id":"10", "edited_timestamp":null}"#).unwrap();
    let initial = revision(Some(&convert(&message)));
    message["embeds"] = serde_json::from_str(r#"[{"title":"new metadata"}]"#).unwrap();
    assert_eq!(initial, revision(Some(&convert(&message))));
    message["edited_timestamp"] = Value::from("2026-09-14T20:00:00Z");
    assert_ne!(initial, revision(Some(&convert(&message))));
}

#[test]
fn identities_are_digests() {
    assert_eq!(revision(None), "74234e98afe7498fb5daf1f36ac2d78acc339464f950703b8c019892f982b90b");
    assert_eq!(
        revision(Some(&json(r#"{"id":"10"}"#))),
        "918751723bb3a5246a743f618e47ae9edd04a30aee8cd0c41eb850c681183dda"
    );
}

#[test]
fn messages_are_rendered_in_full() {
    let message = json(
        r#"{"type":19,"author":{"global_name":"あおい@","username":"x"},
            "content":"<@5> と <@!5>  見て\n https://a.test/1 https://a.test/1 https://b.test/2 https://c.test/3",
            "mentions":[{"id":"5","username":"まつり"}]}"#,
    );
    let draft = draft(&message).unwrap();
    assert_eq!(draft.links.len(), 2);
    assert_eq!(
        render(&draft, &vec![Some("題名".into()), None]),
        "💬 通話中の話題\nあおい＠：まつり と まつり 見て\n題名\nhttps://a.test/1\nhttps://b.test/2"
    );
}

#[test]
fn attachments_are_called_by_their_names() {
    let message = json(
        r#"{"author":{},"attachments":[{"url":"https://a.test/f","filename":" file\n.txt "},{"filename":"no url"},{"url":"https://a.test/g"},{"url":"https://a.test/h"}]}"#,
    );
    let draft = draft(&message).unwrap();
    assert_eq!(
        render(&draft, &Vec::new()),
        "💬 通話中の話題\n参加者：\nfile .txt\nhttps://a.test/f\nhttps://a.test/g"
    );
}

#[test]
fn nothing_is_drafted_of_what_nobody_wrote() {
    assert!(draft(&json(r#"{"type":7,"content":"joined"}"#)).is_none());
    assert!(draft(&json(r#"{"type":0,"content":"  "}"#)).is_none());
    assert!(draft(&json(r#"{}"#)).is_none());
    let long = json(&format!(r#"{{"content":"{}"}}"#, "あ".repeat(181)));
    let text = render(&draft(&long).unwrap(), &Vec::new());
    assert!(text.ends_with('…') && text.chars().count() == 9 + 4 + 180 + 1);
    let link = format!(r#"{{"content":"https://a.test/{}"}}"#, "x".repeat(2048));
    assert!(draft(&json(&link)).is_none());
}

#[test]
fn sharing_errors_have_messages() {
    assert_eq!(
        ShareError::Status(403).message(),
        "Discord shared channel: HTTP 403 (body redacted)"
    );
    assert_eq!(ShareError::MissingId.message(), "Missing shared message ID");
}
