//! What is asked of Mastodon, and which images it is given.
use vstd::prelude::*;
use vstd::string::*;

use crate::activity::{artwork_address, asset, is_snowflake, snowflake};
use crate::avatars::{
    is_on_host, lemma_cdn, lemma_file, lemma_plain_file, lemma_plain_id, lemma_plain_size,
    lemma_slashed_length, on_host,
};
use crate::discord::{Attachment, AttachmentView, ImageSource};
use crate::engine::{Post, PostView};
use crate::http::{
    failure, failure_text, is_success, read, reading, succeeded, Method, Request, RequestView,
};
use crate::json::{member, member_views, named, text_in, views, Json, JsonView, Member};
use crate::store::bearer;
use crate::text::{before, begins, pieces, same, split, starts_with, strip_suffix};
use crate::url::{
    address, address_parts, lemma_plain_part, lemma_slashed, parse_url, plain_host, plain_part,
    plain_parts, plain_query, short, slashed, url_parts, Url, UrlView,
};

verus! {

/// The account that posts.
pub struct Mastodon {
    pub base: String,
    pub token: String,
    pub visibility: String,
}

/// The request that failed.
#[derive(Clone, Copy, Debug, PartialEq, Eq, Structural)]
pub enum Service {
    Credentials,
    Download,
    Upload,
    Processing,
    Status,
}

/// Why something could not be posted.
#[derive(Clone, Copy, Debug, PartialEq, Eq, Structural)]
pub enum MastodonError {
    AttachmentUrl,
    AttachmentHost,
    AssetUrl,
    AssetHost,
    TooLarge,
    ImageType,
    Status(Service, u16),
    MissingMediaId,
    Timeout,
    MissingStatusId,
}

pub open spec fn service_name(service: Service) -> Seq<char> {
    match service {
        Service::Credentials => "Mastodon credentials (read:accounts required)"@,
        Service::Download => "Discord image download"@,
        Service::Upload => "Mastodon upload"@,
        Service::Processing => "Mastodon media processing"@,
        Service::Status => "Mastodon status"@,
    }
}

/// What is said where something could not be posted.
pub open spec fn mastodon_message(e: MastodonError) -> Seq<char> {
    match e {
        MastodonError::AttachmentUrl => "Invalid attachment URL"@,
        MastodonError::AttachmentHost => "Only official Discord attachment CDN URLs are accepted"@,
        MastodonError::AssetUrl => "Invalid activity asset URL"@,
        MastodonError::AssetHost => "Only official Discord application assets are accepted"@,
        MastodonError::TooLarge => "Image exceeds 8 MiB"@,
        MastodonError::ImageType => "Unsupported image: expected PNG, JPEG or WebP"@,
        MastodonError::Status(service, status) => failure(service_name(service), status),
        MastodonError::MissingMediaId => "Missing media ID"@,
        MastodonError::Timeout => "Mastodon media processing timed out"@,
        MastodonError::MissingStatusId => "Missing status ID"@,
    }
}

impl MastodonError {
    pub fn message(&self) -> (r: String)
        ensures
            r@ == mastodon_message(*self),
    {
        let text = match self {
            MastodonError::AttachmentUrl => "Invalid attachment URL",
            MastodonError::AttachmentHost => "Only official Discord attachment CDN URLs are accepted",
            MastodonError::AssetUrl => "Invalid activity asset URL",
            MastodonError::AssetHost => "Only official Discord application assets are accepted",
            MastodonError::TooLarge => "Image exceeds 8 MiB",
            MastodonError::ImageType => "Unsupported image: expected PNG, JPEG or WebP",
            MastodonError::Status(service, status) => {
                let name = match service {
                    Service::Credentials => "Mastodon credentials (read:accounts required)",
                    Service::Download => "Discord image download",
                    Service::Upload => "Mastodon upload",
                    Service::Processing => "Mastodon media processing",
                    Service::Status => "Mastodon status",
                };
                return failure_text(name, *status);
            },
            MastodonError::MissingMediaId => "Missing media ID",
            MastodonError::Timeout => "Mastodon media processing timed out",
            MastodonError::MissingStatusId => "Missing status ID",
        };
        text.to_owned()
    }
}

/// What is wrong with the URL of an image that a person shared.
pub open spec fn attachment_error(url: Option<UrlView>) -> Option<MastodonError> {
    match url {
        None => Some(MastodonError::AttachmentUrl),
        Some(url) => if (on_host(url, "cdn.discordapp.com"@) || on_host(
            url,
            "media.discordapp.net"@,
        )) && begins(url.path, "/attachments/"@) {
            None
        } else {
            Some(MastodonError::AttachmentHost)
        },
    }
}

/// Accepts the URLs of attachments on Discord's CDN, and no others.
pub fn validate_attachment_url(value: &str) -> (r: Result<(), MastodonError>)
    ensures
        match r {
            Ok(_) => attachment_error(url_parts(value@)) is None,
            Err(e) => attachment_error(url_parts(value@)) == Some(e),
        },
{
    validate_attachment(&parse_url(value))
}

/// Accepts the URLs of attachments on Discord's CDN, taken apart.
pub fn validate_attachment(url: &Option<Url>) -> (r: Result<(), MastodonError>)
    ensures
        match r {
            Ok(_) => attachment_error(url.deep_view()) is None,
            Err(e) => attachment_error(url.deep_view()) == Some(e),
        },
{
    match url {
        None => Err(MastodonError::AttachmentUrl),
        Some(url) => if (is_on_host(url, "cdn.discordapp.com") || is_on_host(
            url,
            "media.discordapp.net",
        )) && starts_with(url.path.as_str(), "/attachments/") {
            Ok(())
        } else {
            Err(MastodonError::AttachmentHost)
        },
    }
}

/// The path of an application's image.
pub open spec fn is_asset_path(parts: Seq<Seq<char>>) -> bool {
    &&& parts.len() == 4
    &&& parts[1] == "app-assets"@
    &&& is_snowflake(parts[2])
    &&& before(parts[3], ".png"@) is Some
    &&& is_snowflake(before(parts[3], ".png"@)->0)
}

/// What is wrong with the URL of an application's image.
pub open spec fn asset_error(url: Option<UrlView>) -> Option<MastodonError> {
    match url {
        None => Some(MastodonError::AssetUrl),
        Some(url) => if on_host(url, "cdn.discordapp.com"@) && is_asset_path(
            pieces(url.path, '/'),
        ) {
            None
        } else {
            Some(MastodonError::AssetHost)
        },
    }
}

/// Accepts the URLs of applications' images on Discord's CDN, and no others.
pub fn validate_activity_asset_url(value: &str) -> (r: Result<(), MastodonError>)
    ensures
        match r {
            Ok(_) => asset_error(url_parts(value@)) is None,
            Err(e) => asset_error(url_parts(value@)) == Some(e),
        },
        artwork_address(value@) ==> r is Ok,
{
    let url = parse_url(value);
    proof {
        if artwork_address(value@) {
            let (app, image) = choose|app: Seq<char>, image: Seq<char>|
                is_snowflake(app) && is_snowflake(image) && value@ == (#[trigger] asset(
                    app,
                    image,
                )).url;
            lemma_artwork_address(app, image);
        }
    }
    validate_activity_asset(&url)
}

/// The parts of the path of an application's image.
spec fn artwork_parts(app: Seq<char>, image: Seq<char>) -> Seq<Seq<char>> {
    seq!["app-assets"@, app, image + ".png"@]
}

/// Nothing is wrong with the URL of an application's image.
#[verifier::rlimit(40)]
proof fn lemma_artwork_address(app: Seq<char>, image: Seq<char>)
    requires
        is_snowflake(app),
        is_snowflake(image),
    ensures
        asset(app, image).url == address(
            "cdn.discordapp.com"@,
            artwork_parts(app, image),
            "size=512"@,
        ),
        plain_host("cdn.discordapp.com"@),
        plain_parts(artwork_parts(app, image)),
        plain_query("size=512"@),
        short(asset(app, image).url),
        asset_error(
            Some(
                address_parts("cdn.discordapp.com"@, artwork_parts(app, image), "size=512"@),
            ),
        ) is None,
{
    let parts = artwork_parts(app, image);
    let word = "app-assets"@;
    reveal_strlit("app-assets");
    assert forall|i: int| 0 <= i < word.len() implies crate::text::alphanumeric(#[trigger] word[i])
        || word[i] == '-' by {
        assert(i == 0 || i == 1 || i == 2 || i == 3 || i == 4 || i == 5 || i == 6 || i == 7 || i
            == 8 || i == 9);
    }
    assert(plain_part(word));
    lemma_plain_id(app);
    lemma_plain_id(image);
    lemma_file(image);
    lemma_plain_file(image + ".png"@, image);
    lemma_cdn();
    lemma_plain_size("size=512"@);
    lemma_slashed_length(parts);
    assert forall|i: int| 0 <= i < parts.len() implies !(#[trigger] parts[i]).contains('/') by {
        lemma_plain_part(parts[i]);
    }
    let none = Seq::<char>::empty();
    lemma_slashed(none, parts);
    assert(none + slashed(parts) =~= slashed(parts));
    reveal_with_fuel(slashed, 4);
    reveal_strlit("https://cdn.discordapp.com/app-assets/");
    reveal_strlit("https://");
    reveal_strlit("cdn.discordapp.com");
    reveal_strlit("/");
    reveal_strlit(".png?size=512");
    reveal_strlit(".png");
    reveal_strlit("?");
    reveal_strlit("size=512");
    assert("https://cdn.discordapp.com/app-assets/"@ =~= "https://"@ + "cdn.discordapp.com"@ + seq![
        '/',
    ] + word + seq!['/']);
    assert(".png?size=512"@ =~= ".png"@ + "?"@ + "size=512"@);
    assert("/"@ =~= seq!['/']);
    assert(slashed(parts) =~= seq!['/'] + word + seq!['/'] + app + seq!['/'] + (image + ".png"@));
    assert(asset(app, image).url =~= address("cdn.discordapp.com"@, parts, "size=512"@));
}

/// Accepts the URLs of applications' images on Discord's CDN, taken apart.
pub fn validate_activity_asset(url: &Option<Url>) -> (r: Result<(), MastodonError>)
    ensures
        match r {
            Ok(_) => asset_error(url.deep_view()) is None,
            Err(e) => asset_error(url.deep_view()) == Some(e),
        },
{
    let url = match url {
        Some(url) => url,
        None => return Err(MastodonError::AssetUrl),
    };
    let parts = split(url.path.as_str(), '/');
    let ghost shown = parts.deep_view();
    assert(shown.len() == parts.len());
    assert(forall|i: int| 0 <= i < parts.len() ==> #[trigger] shown[i] == parts[i]@);
    let valid = if parts.len() == 4 {
        match strip_suffix(parts[3].as_str(), ".png") {
            Some(name) => same(parts[1].as_str(), "app-assets") && snowflake(parts[2].as_str())
                && snowflake(name.as_str()),
            None => false,
        }
    } else {
        false
    };
    if is_on_host(url, "cdn.discordapp.com") && valid {
        Ok(())
    } else {
        Err(MastodonError::AssetHost)
    }
}

/// What is wrong with an image, by where it comes from.
pub open spec fn image_error(image: AttachmentView) -> Option<MastodonError> {
    match image.source {
        ImageSource::DiscordAttachment => attachment_error(url_parts(image.url)),
        ImageSource::ActivityAsset => asset_error(url_parts(image.url)),
    }
}

/// A request for an image. It says nothing of who asks.
pub open spec fn image_request(image: AttachmentView) -> RequestView {
    RequestView {
        method: Method::Get,
        url: image.url,
        authorization: None,
        idempotency_key: None,
        accept: None,
        body: None,
        repeatable: true,
    }
}

/// Asks for an image, where it comes from Discord's CDN.
pub fn download(image: &Attachment) -> (r: Result<Request, MastodonError>)
    ensures
        match r {
            Ok(request) => image_error(image@) is None && request@ == image_request(image@),
            Err(e) => image_error(image@) == Some(e),
        },
        image.source is ActivityAsset && artwork_address(image.url@) ==> r is Ok,
{
    let checked = match image.source {
        ImageSource::DiscordAttachment => validate_attachment_url(image.url.as_str()),
        ImageSource::ActivityAsset => validate_activity_asset_url(image.url.as_str()),
    };
    match checked {
        Err(e) => Err(e),
        Ok(_) => Ok(
            Request {
                method: Method::Get,
                url: image.url.clone(),
                authorization: None,
                idempotency_key: None,
                accept: None,
                body: None,
                repeatable: true,
            },
        ),
    }
}

/// An image is downloaded without a word on who asks, and only from Discord's CDN.
pub proof fn law_downloads_carry_no_token(image: AttachmentView)
    ensures
        image_request(image).authorization is None,
        image_error(image) is None ==> url_parts(image.url) is Some && (on_host(
            url_parts(image.url)->0,
            "cdn.discordapp.com"@,
        ) || on_host(url_parts(image.url)->0, "media.discordapp.net"@)),
{
}

/// Whether bytes begin with others.
pub open spec fn starts(bytes: Seq<u8>, start: Seq<u8>) -> bool {
    start.len() <= bytes.len() && bytes.take(start.len() as int) == start
}

/// The signature of a PNG image.
pub open spec fn png() -> Seq<u8> {
    seq![0x89u8, 0x50, 0x4E, 0x47, 0x0D, 0x0A, 0x1A, 0x0A]
}

/// The signature of a JPEG image.
pub open spec fn jpeg() -> Seq<u8> {
    seq![0xFFu8, 0xD8, 0xFF]
}

/// The signature of a RIFF file.
pub open spec fn riff() -> Seq<u8> {
    seq![0x52u8, 0x49, 0x46, 0x46]
}

/// The kind of RIFF file that a WebP image is.
pub open spec fn webp() -> Seq<u8> {
    seq![0x57u8, 0x45, 0x42, 0x50]
}

/// The type of an image, by its first bytes, and a name for its file.
pub open spec fn image_kind(bytes: Seq<u8>) -> Option<(Seq<char>, Seq<char>)> {
    if starts(bytes, png()) {
        Some(("image/png"@, "screenshot.png"@))
    } else if starts(bytes, jpeg()) {
        Some(("image/jpeg"@, "screenshot.jpg"@))
    } else if starts(bytes, riff()) && bytes.len() >= 12 && bytes.subrange(8, 12) == webp() {
        Some(("image/webp"@, "screenshot.webp"@))
    } else {
        None
    }
}

fn matches_at(bytes: &[u8], at: usize, part: &Vec<u8>) -> (r: bool)
    requires
        at <= 64,
        part@.len() <= 64,
    ensures
        r == (at + part@.len() <= bytes@.len() && bytes@.subrange(at as int, at + part@.len())
            == part@),
{
    if bytes.len() < at + part.len() {
        return false;
    }
    let ghost there = bytes@.subrange(at as int, at + part@.len());
    for i in 0..part.len()
        invariant
            at + part@.len() <= bytes@.len(),
            at <= 64,
            part@.len() <= 64,
            there == bytes@.subrange(at as int, at + part@.len()),
            forall|j: int| 0 <= j < i ==> there[j] == #[trigger] part@[j],
    {
        if bytes[at + i] != part[i] {
            assert(there[i as int] != part@[i as int]);
            return false;
        }
    }
    assert(there =~= part@);
    true
}

pub fn image_type(bytes: &[u8]) -> (r: Option<(&'static str, &'static str)>)
    ensures
        match r {
            Some((kind, name)) => image_kind(bytes@) == Some((kind@, name@)),
            None => image_kind(bytes@) is None,
        },
{
    let png: Vec<u8> = vec![0x89, 0x50, 0x4E, 0x47, 0x0D, 0x0A, 0x1A, 0x0A];
    let jpeg: Vec<u8> = vec![0xFF, 0xD8, 0xFF];
    let riff: Vec<u8> = vec![0x52, 0x49, 0x46, 0x46];
    let webp: Vec<u8> = vec![0x57, 0x45, 0x42, 0x50];
    proof {
        assert(png@ =~= self::png());
        assert(jpeg@ =~= self::jpeg());
        assert(riff@ =~= self::riff());
        assert(webp@ =~= self::webp());
        if bytes@.len() >= 8 {
            assert(bytes@.subrange(0, 8) =~= bytes@.take(8));
        }
        if bytes@.len() >= 3 {
            assert(bytes@.subrange(0, 3) =~= bytes@.take(3));
        }
        if bytes@.len() >= 4 {
            assert(bytes@.subrange(0, 4) =~= bytes@.take(4));
        }
    }
    if matches_at(bytes, 0, &png) {
        Some(("image/png", "screenshot.png"))
    } else if matches_at(bytes, 0, &jpeg) {
        Some(("image/jpeg", "screenshot.jpg"))
    } else if matches_at(bytes, 0, &riff) && matches_at(bytes, 8, &webp) {
        Some(("image/webp", "screenshot.webp"))
    } else {
        None
    }
}

/// How often it is asked at most whether an image is ready.
pub const POLLS: u32 = 10;

/// How an image that was uploaded stands.
pub enum Media {
    /// It can be posted.
    Ready(String),
    /// It is being processed, and has to be asked for again.
    Processing(String),
}

pub enum MediaView {
    Ready(Seq<char>),
    Processing(Seq<char>),
}

impl Media {
    pub open spec fn view(&self) -> MediaView {
        match *self {
            Media::Ready(id) => MediaView::Ready(id@),
            Media::Processing(id) => MediaView::Processing(id@),
        }
    }
}

/// How an image stands after it was uploaded. It can be posted once it has a URL.
pub open spec fn upload_result(status: u16, body: JsonView) -> Result<MediaView, MastodonError> {
    if !succeeded(status) {
        Err(MastodonError::Status(Service::Upload, status))
    } else {
        match text_in(member(body, "id"@)) {
            None => Err(MastodonError::MissingMediaId),
            Some(id) => if text_in(member(body, "url"@)) is Some {
                Ok(MediaView::Ready(id))
            } else {
                Ok(MediaView::Processing(id))
            },
        }
    }
}

/// How an image stands after it was asked for so many times.
pub open spec fn poll_result(id: Seq<char>, polls: u32, status: u16, body: JsonView) -> Result<
    MediaView,
    MastodonError,
> {
    if status != 206 && !succeeded(status) {
        Err(MastodonError::Status(Service::Processing, status))
    } else if status != 206 && text_in(member(body, "url"@)) is Some {
        Ok(MediaView::Ready(id))
    } else if polls >= POLLS {
        Err(MastodonError::Timeout)
    } else {
        Ok(MediaView::Processing(id))
    }
}

/// How an image stands after it was uploaded.
pub fn uploaded(status: u16, body: &Json) -> (r: Result<Media, MastodonError>)
    ensures
        match r {
            Ok(media) => upload_result(status, body@) == Ok::<MediaView, MastodonError>(media@),
            Err(e) => upload_result(status, body@) == Err::<MediaView, MastodonError>(e),
        },
{
    if !is_success(status) {
        return Err(MastodonError::Status(Service::Upload, status));
    }
    match body.get("id").as_text() {
        None => Err(MastodonError::MissingMediaId),
        Some(id) => if body.get("url").as_text().is_some() {
            Ok(Media::Ready(id.to_owned()))
        } else {
            Ok(Media::Processing(id.to_owned()))
        },
    }
}

/// How an image stands after it was asked for so many times.
pub fn polled(id: &str, polls: u32, status: u16, body: &Json) -> (r: Result<Media, MastodonError>)
    ensures
        match r {
            Ok(media) => poll_result(id@, polls, status, body@) == Ok::<MediaView, MastodonError>(
                media@,
            ),
            Err(e) => poll_result(id@, polls, status, body@) == Err::<MediaView, MastodonError>(e),
        },
{
    if status != 206 {
        if !is_success(status) {
            return Err(MastodonError::Status(Service::Processing, status));
        }
        if body.get("url").as_text().is_some() {
            return Ok(Media::Ready(id.to_owned()));
        }
    }
    if polls >= POLLS {
        Err(MastodonError::Timeout)
    } else {
        Ok(Media::Processing(id.to_owned()))
    }
}

/// A post as JSON.
pub open spec fn post_json(post: PostView, visibility: Seq<char>) -> JsonView {
    JsonView::Object(
        seq![
            ("status"@, JsonView::Text(post.text)),
            ("visibility"@, JsonView::Text(visibility)),
            ("language"@, JsonView::Text("ja"@)),
            (
                "media_ids"@,
                JsonView::List(
                    match post.media_id {
                        Some(id) => seq![JsonView::Text(id)],
                        None => Seq::empty(),
                    },
                ),
            ),
        ],
    )
}

/// A request to publish a post. Its key lets the server recognise a repetition.
pub open spec fn post_request(
    base: Seq<char>,
    token: Seq<char>,
    visibility: Seq<char>,
    post: PostView,
) -> RequestView {
    RequestView {
        method: Method::Post,
        url: base + "/api/v1/statuses"@,
        authorization: Some(bearer(token)),
        idempotency_key: Some(post.key),
        accept: None,
        body: Some(post_json(post, visibility)),
        repeatable: true,
    }
}

/// The question whether the token is good.
pub open spec fn credentials_request(base: Seq<char>, token: Seq<char>) -> RequestView {
    reading(base + "/api/v1/accounts/verify_credentials"@, bearer(token))
}

/// Where and as whom an image is uploaded.
pub open spec fn upload_place(base: Seq<char>, token: Seq<char>) -> (Seq<char>, Seq<char>) {
    (base + "/api/v2/media"@, bearer(token))
}

/// The question how an image stands.
pub open spec fn poll_request(base: Seq<char>, token: Seq<char>, id: Seq<char>) -> RequestView {
    reading(base + "/api/v1/media/"@ + id, bearer(token))
}

impl Mastodon {
    fn sign(&self) -> (r: String)
        ensures
            r@ == bearer(self.token@),
    {
        let mut out = "Bearer ".to_owned();
        out.append(self.token.as_str());
        out
    }

    /// Asks whether the token is good.
    pub fn verify(&self) -> (r: Request)
        ensures
            r@ == reading(
                self.base@ + "/api/v1/accounts/verify_credentials"@,
                bearer(self.token@),
            ),
            r@ == credentials_request(self.base@, self.token@),
    {
        let mut url = self.base.clone();
        url.append("/api/v1/accounts/verify_credentials");
        read(url, self.sign())
    }

    /// Where and as whom an image is uploaded.
    pub fn upload(&self) -> (r: (String, String))
        ensures
            r.0@ == self.base@ + "/api/v2/media"@,
            r.1@ == bearer(self.token@),
            (r.0@, r.1@) == upload_place(self.base@, self.token@),
    {
        let mut url = self.base.clone();
        url.append("/api/v2/media");
        (url, self.sign())
    }

    /// Asks how an image stands.
    pub fn poll(&self, id: &str) -> (r: Request)
        ensures
            r@ == reading(self.base@ + "/api/v1/media/"@ + id@, bearer(self.token@)),
            r@ == poll_request(self.base@, self.token@, id@),
    {
        let mut url = self.base.clone();
        url.append("/api/v1/media/");
        url.append(id);
        read(url, self.sign())
    }

    /// Asks for a post to be published.
    pub fn post(&self, post: &Post) -> (r: Request)
        ensures
            r@ == post_request(self.base@, self.token@, self.visibility@, post@),
    {
        let mut media: Vec<Json> = Vec::new();
        if let Some(id) = &post.media_id {
            media.push(Json::text(id.as_str()));
        }
        let ghost wanted = post_json(post@, self.visibility@);
        assert(views(media@) =~= wanted->Object_0[3].1->List_0);
        let mut members: Vec<Member> = Vec::new();
        members.push(named("status", Json::text(post.text.as_str())));
        members.push(named("visibility", Json::text(self.visibility.as_str())));
        members.push(named("language", Json::text("ja")));
        members.push(named("media_ids", Json::list(media)));
        assert(member_views(members@) =~= wanted->Object_0);
        let mut url = self.base.clone();
        url.append("/api/v1/statuses");
        Request {
            method: Method::Post,
            url,
            authorization: Some(self.sign()),
            idempotency_key: Some(post.key.clone()),
            accept: None,
            body: Some(Json::object(members)),
            repeatable: true,
        }
    }
}

/// The ID of a post that was published.
pub open spec fn post_result(status: u16, body: JsonView) -> Result<Seq<char>, MastodonError> {
    if !succeeded(status) {
        Err(MastodonError::Status(Service::Status, status))
    } else {
        match text_in(member(body, "id"@)) {
            Some(id) => Ok(id),
            None => Err(MastodonError::MissingStatusId),
        }
    }
}

/// The ID of a post, from the answer.
pub fn posted(status: u16, body: &Json) -> (r: Result<String, MastodonError>)
    ensures
        match r {
            Ok(id) => post_result(status, body@) == Ok::<Seq<char>, MastodonError>(id@),
            Err(e) => post_result(status, body@) == Err::<Seq<char>, MastodonError>(e),
        },
{
    if !is_success(status) {
        return Err(MastodonError::Status(Service::Status, status));
    }
    match body.get("id").as_text() {
        Some(id) => Ok(id.to_owned()),
        None => Err(MastodonError::MissingStatusId),
    }
}

} // verus!
