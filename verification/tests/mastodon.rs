use serde_json::Value;
use sirucord::discord::{Attachment, ImageSource};
use sirucord::engine::Post;
use sirucord::http::{fits_length, receive, Method};
use sirucord::json::{named, Json};
use sirucord::mastodon::{
    download, image_type, polled, posted, uploaded, validate_activity_asset_url,
    validate_attachment_url, Mastodon, MastodonError, Media, Service,
};

fn convert(value: &Value) -> Json {
    match value {
        Value::Null => Json::Null,
        Value::Bool(b) => Json::Bool(*b),
        Value::Number(n) => match n.as_u64() {
            Some(n) => Json::Unsigned(n),
            None => Json::Number(n.to_string()),
        },
        Value::String(s) => Json::text(s),
        Value::Array(items) => Json::list(items.iter().map(convert).collect()),
        Value::Object(members) => {
            Json::object(members.iter().map(|(k, v)| named(k, convert(v))).collect())
        }
    }
}

fn json(text: &str) -> Json {
    convert(&serde_json::from_str(text).unwrap())
}

#[test]
fn asynchronous_media_processing_finishes_before_status_creation() {
    let mastodon = Mastodon {
        base: "https://server".into(),
        token: "test-token".into(),
        visibility: "private".into(),
    };
    assert_eq!(
        image_type(b"\x89PNG\r\n\x1a\nmock-image"),
        Some(("image/png", "screenshot.png"))
    );
    let (url, authorization) = mastodon.upload();
    assert_eq!(url, "https://server/api/v2/media");
    assert_eq!(authorization, "Bearer test-token");
    let Ok(Media::Processing(id)) = uploaded(202, &json(r#"{"id":"123","url":null}"#)) else {
        panic!("not processing");
    };
    assert_eq!(id, "123");
    assert_eq!(mastodon.poll(&id).url, "https://server/api/v1/media/123");
    let Ok(Media::Processing(id)) = polled(&id, 1, 206, &Json::Null) else {
        panic!("not processing");
    };
    let ready = polled(&id, 2, 200, &json(r#"{"id":"123","url":"https://example.org/image.png"}"#));
    let Ok(Media::Ready(id)) = ready else {
        panic!("not ready");
    };
    let request = mastodon.post(&Post {
        key: "stable-key".into(),
        text: "caption".into(),
        media_id: Some(id),
    });
    assert_eq!(request.method, Method::Post);
    assert_eq!(request.url, "https://server/api/v1/statuses");
    assert_eq!(request.idempotency_key.as_deref(), Some("stable-key"));
    let body = request.body.unwrap();
    assert_eq!(body.get("media_ids").to_text(), r#"["123"]"#);
    assert_eq!(body.get("visibility").as_text(), Some("private"));
    assert_eq!(posted(200, &json(r#"{"id":"456"}"#)).unwrap(), "456");
}

#[test]
fn rejects_untrusted_media_and_active_content() {
    assert!(validate_activity_asset_url(
        "https://cdn.discordapp.com/app-assets/123/456.png?size=512"
    )
    .is_ok());
    for url in [
        "https://example.com/app-assets/123/456.png",
        "https://cdn.discordapp.com/app-assets/a/456.png",
        "https://cdn.discordapp.com/app-assets/123/../456.png",
        "https://cdn.discordapp.com/attachments/123/456.png",
    ] {
        assert!(validate_activity_asset_url(url).is_err());
    }
    for url in [
        "http://127.0.0.1/attachments/a",
        "https://cdn.discordapp.com.evil.test/attachments/a",
        "https://cdn.discordapp.com@evil.test/attachments/a",
        "https://cdn.discordapp.com:444/attachments/a",
        "https://cdn.discordapp.com/other",
    ] {
        assert!(validate_attachment_url(url).is_err());
    }
    assert!(validate_attachment_url(
        "https://cdn.discordapp.com/attachments/1/2/image.png?ex=abc"
    )
    .is_ok());
    assert!(image_type(b"<svg></svg>").is_none());
    assert_eq!(
        image_type(b"\x89PNG\r\n\x1a\n"),
        Some(("image/png", "screenshot.png"))
    );
}

#[test]
fn images_are_told_by_their_first_bytes() {
    assert_eq!(image_type(&[0xff, 0xd8, 0xff, 0]), Some(("image/jpeg", "screenshot.jpg")));
    assert_eq!(
        image_type(b"RIFF\x00\x00\x00\x00WEBPVP8 "),
        Some(("image/webp", "screenshot.webp"))
    );
    assert_eq!(image_type(b"RIFF\x00\x00\x00\x00WAVE"), None);
    assert_eq!(image_type(b"RIFF"), None);
    assert_eq!(image_type(b""), None);
}

#[test]
fn images_are_downloaded_without_a_token() {
    let image = |source: ImageSource, url: &str| Attachment {
        source,
        id: "1".into(),
        url: url.into(),
        content_type: None,
        size: 1,
    };
    let asset = "https://cdn.discordapp.com/app-assets/1/2.png?size=512";
    let request = download(&image(ImageSource::ActivityAsset, asset)).ok().unwrap();
    assert_eq!(request.url, asset);
    assert!(request.authorization.is_none() && request.method == Method::Get);
    assert_eq!(
        download(&image(ImageSource::DiscordAttachment, asset)).err(),
        Some(MastodonError::AttachmentHost)
    );
    assert_eq!(
        download(&image(ImageSource::ActivityAsset, "x")).err(),
        Some(MastodonError::AssetUrl)
    );
    assert_eq!(
        download(&image(ImageSource::DiscordAttachment, "x")).err(),
        Some(MastodonError::AttachmentUrl)
    );
    assert_eq!(
        download(&image(ImageSource::ActivityAsset, "https://media.discordapp.net/app-assets/1/2.png")).err(),
        Some(MastodonError::AssetHost)
    );
}

#[test]
fn media_and_posts_fail_by_reason() {
    assert_eq!(uploaded(422, &Json::Null).err(), Some(MastodonError::Status(Service::Upload, 422)));
    assert_eq!(uploaded(200, &json("{}")).err(), Some(MastodonError::MissingMediaId));
    assert!(matches!(uploaded(200, &json(r#"{"id":"1","url":"u"}"#)), Ok(Media::Ready(_))));
    assert_eq!(polled("1", 10, 206, &Json::Null).err(), Some(MastodonError::Timeout));
    assert_eq!(polled("1", 10, 200, &json("{}")).err(), Some(MastodonError::Timeout));
    assert!(matches!(polled("1", 9, 206, &Json::Null), Ok(Media::Processing(_))));
    assert_eq!(
        polled("1", 1, 500, &Json::Null).err(),
        Some(MastodonError::Status(Service::Processing, 500))
    );
    assert_eq!(posted(200, &json("{}")), Err(MastodonError::MissingStatusId));
    assert_eq!(
        posted(401, &Json::Null).unwrap_err().message(),
        "Mastodon status: HTTP 401 (body redacted)"
    );
}

#[test]
fn downloads_have_limits() {
    assert!(fits_length(None, 3) && fits_length(Some(3), 3) && !fits_length(Some(4), 3));
    let mut bytes = vec![1u8];
    assert!(receive(&mut bytes, &[2, 3], 3));
    assert!(!receive(&mut bytes, &[4], 3));
    assert_eq!(bytes, [1, 2, 3]);
}
