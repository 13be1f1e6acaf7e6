use serde_json::Value;
use sirucord::avatars::{
    card_fits, describe, member_avatar, placeholder_pixel, validate_url, Avatar, AvatarError,
};
use sirucord::json::{named, Json};

fn convert(value: &Value) -> Json {
    match value {
        Value::Null => Json::Null,
        Value::Bool(b) => Json::Bool(*b),
        Value::Number(n) => match n.as_u64() {
            Some(n) => Json::Unsigned(n),
            None => Json::Number(n.to_string()),
        },
        Value::String(s) => Json::text(s),
        Value::Array(items) => Json::list(items.iter().map(convert).collect()),
        Value::Object(members) => {
            Json::object(members.iter().map(|(k, v)| named(k, convert(v))).collect())
        }
    }
}

#[test]
fn avatars_use_server_then_user_then_correct_default() {
    let mut m: Value = serde_json::from_str(r#"{"user":{"id":"4194304","username":"name","avatar":"0123456789abcdef0123456789abcdef"},"avatar":"abcdef0123456789abcdef0123456789"}"#).unwrap();
    assert!(member_avatar(&convert(&m), "10")
        .unwrap()
        .url
        .contains("guilds/10/users/4194304/avatars/"));
    m["avatar"] = Value::Null;
    assert!(member_avatar(&convert(&m), "10")
        .unwrap()
        .url
        .contains("/avatars/4194304/"));
    m["user"]["avatar"] = Value::from("../../private");
    assert!(member_avatar(&convert(&m), "10")
        .unwrap()
        .url
        .contains("embed/avatars/1.png"));
    m["user"]["discriminator"] = Value::from("1234");
    assert!(member_avatar(&convert(&m), "10")
        .unwrap()
        .url
        .contains("embed/avatars/4.png"));
    for url in [
        "http://localhost/a.png",
        "https://cdn.discordapp.com.evil.test/embed/avatars/1.png",
        "https://cdn.discordapp.com/attachments/1/2/a.png",
        "https://cdn.discordapp.com/embed/avatars/6.png",
    ] {
        assert!(validate_url(url).is_err());
    }
    assert!(validate_url(&member_avatar(&convert(&m), "10").unwrap().url).is_ok());
}

#[test]
fn every_portrait_is_accepted_where_it_is_used() {
    for text in [
        r#"{"user":{"id":"7","avatar":"a_0123456789abcdef0123456789abcdef"}}"#,
        r#"{"user":{"id":"7"},"avatar":"0123456789ABCDEF0123456789abcdef"}"#,
        r#"{"user":{"id":"7"}}"#,
    ] {
        let avatar = member_avatar(&convert(&serde_json::from_str(text).unwrap()), "10").unwrap();
        assert!(validate_url(&avatar.url).is_ok(), "{}", avatar.url);
        assert_eq!(avatar.name, "Discord参加者");
    }
}

#[test]
fn names_come_from_the_server_first() {
    for (text, name) in [
        (r#"{"user":{"id":"7","global_name":"global","username":"user"},"nick":"nick"}"#, "nick"),
        (r#"{"user":{"id":"7","global_name":"global","username":"user"}}"#, "global"),
        (r#"{"user":{"id":"7","username":"@user"}}"#, "＠user"),
    ] {
        let member = convert(&serde_json::from_str(text).unwrap());
        assert_eq!(member_avatar(&member, "10").unwrap().name, name);
    }
}

#[test]
fn members_without_an_id_are_refused() {
    let error = |text: &str| {
        member_avatar(&convert(&serde_json::from_str(text).unwrap()), "10").unwrap_err()
    };
    assert_eq!(error("{}"), AvatarError::MissingId);
    assert_eq!(error(r#"{"user":{"id":"x"}}"#), AvatarError::InvalidId);
    assert_eq!(error("{}").message(), "Missing member ID");
}

#[test]
fn avatar_urls_are_refused_by_reason() {
    assert_eq!(validate_url("no url"), Err(AvatarError::NoUrl));
    assert_eq!(
        validate_url("https://cdn.discordapp.com:444/embed/avatars/1.png"),
        Err(AvatarError::Host)
    );
    assert_eq!(
        validate_url("https://user@cdn.discordapp.com/embed/avatars/1.png"),
        Err(AvatarError::Host)
    );
    assert_eq!(
        validate_url("https://cdn.discordapp.com/avatars/1/short.png"),
        Err(AvatarError::Path)
    );
    assert_eq!(
        validate_url("https://cdn.discordapp.com/embed/avatars/5.png?size=128"),
        Ok(())
    );
}

#[test]
fn cards_are_described_in_words() {
    let people = vec![
        Avatar { name: "Alice".into(), url: String::new(), streaming: true, game: Some("Chess".into()) },
        Avatar { name: "Bob".into(), url: String::new(), streaming: false, game: None },
    ];
    assert_eq!(
        describe(&people, 0),
        "通話参加者（左から右、上から下）：Alice、Bob。Alice：配信中、プレイ中：Chess。Bob：通話中"
    );
    assert!(describe(&people, 1).ends_with("。取得できないアイコンは灰色の人型で表示"));
    let long = vec![
        Avatar { name: "名".repeat(2000), url: String::new(), streaming: false, game: None },
    ];
    assert_eq!(describe(&long, 0).chars().count(), 1500);
}

#[test]
fn placeholders_show_a_figure() {
    assert_eq!(placeholder_pixel(64, 43), [210, 215, 225, 255]);
    assert_eq!(placeholder_pixel(64, 110), [210, 215, 225, 255]);
    assert_eq!(placeholder_pixel(0, 0), [74, 82, 101, 255]);
    assert_eq!(placeholder_pixel(64, 70), [74, 82, 101, 255]);
    assert!(!card_fits(1) && card_fits(2) && card_fits(256) && !card_fits(257));
}
