//! What is asked of services, what is made of their answers, and how refusals are told.
use vstd::prelude::*;
use vstd::string::*;

use crate::discord::{
    announcements_request, discord_message, discovery_request, shared_request, AttachmentView,
    DiscordError,
};
use crate::engine::{engine_message, EngineError};
use crate::http::{failure, reading, retried, succeeded, taken_in, Method, Retry};
use crate::json::{json_text, JsonView};
use crate::link_titles::received;
use crate::mastodon::{
    asset_error, attachment_error, credentials_request, image_error, image_request,
    mastodon_message, poll_request, upload_place, MastodonError, Service,
};
use crate::number::{decimal, lower_hex, numeral};
use crate::sharing::{share_message, ShareError};
use crate::survey::{run_message, RunError};
use crate::text::{alphanumeric, behind, control, digit, hex, space};
use crate::url::url_parts;

verus! {

/// An answer is good where its status lies in the two hundreds.
pub proof fn law_the_two_hundreds_are_good(status: u16)
    ensures
        succeeded(status) <==> status / 100 == 2,
{
}

/// A refusal is told by who refused and by the status, and by nothing else of the answer.
pub proof fn law_refusals_are_told_by_status(service: Seq<char>, status: u16)
    ensures
        failure(service, status) == service + ": HTTP "@ + decimal(status as nat)
            + " (body redacted)"@,
{
}

/// What only reads says who asks, and may be asked again.
pub proof fn law_readings_may_be_repeated(url: Seq<char>, who: Seq<char>)
    ensures
        ({
            let request = reading(url, who);
            &&& request.method == Method::Get
            &&& request.url == url
            &&& request.authorization == Some(who)
            &&& request.body is None
            &&& request.idempotency_key is None
            &&& request.accept is None
            &&& request.repeatable
        }),
{
}

/// What may pass is tried three times, with a pause that doubles: too many questions, and
/// failures of the service. Everything else is taken as it is.
pub proof fn law_passing_troubles_are_tried_again(status: u16, attempt: u32)
    requires
        attempt < 3,
    ensures
        retried(status, attempt) is Wait <==> attempt < 2 && (status == 429 || status / 100 == 5),
        retried(status, attempt) matches Retry::Wait { seconds, body_counts } ==> {
            &&& seconds == 2 * (attempt + 1)
            &&& body_counts == (status == 429)
        },
{
}

/// An image is asked for where it is, by nobody, and only where its kind of image may be.
pub proof fn law_images_are_asked_for_where_they_are(image: AttachmentView)
    ensures
        image_request(image).url == image.url,
        image_request(image).method == Method::Get,
        image_request(image).authorization is None,
        image_request(image).body is None,
        image.source is DiscordAttachment ==> image_error(image) == attachment_error(
            url_parts(image.url),
        ),
        image.source is ActivityAsset ==> image_error(image) == asset_error(url_parts(image.url)),
{
}

/// A document is kept as it arrives, in order, up to a quarter of a mebibyte.
pub proof fn law_documents_are_kept_as_they_arrive(bytes: Seq<u8>, chunk: Seq<u8>)
    requires
        bytes.len() <= 262_144,
    ensures
        bytes.is_prefix_of(received(bytes, chunk)),
        received(bytes, chunk).is_prefix_of(bytes + chunk),
        bytes.len() + chunk.len() <= 262_144 ==> received(bytes, chunk) == bytes + chunk,
        bytes.len() + chunk.len() > 262_144 ==> received(bytes, chunk).len() == 262_144,
{
    assert((bytes + chunk).subrange(0, bytes.len() as int) == bytes);
    if bytes.len() + chunk.len() > 262_144 {
        let kept = (bytes + chunk).take(262_144);
        assert(kept.subrange(0, bytes.len() as int) == bytes);
        assert((bytes + chunk).subrange(0, 262_144) == kept);
    } else {
        assert((bytes + chunk).subrange(0, (bytes + chunk).len() as int) == bytes + chunk);
    }
}

/// Characters are what their numbers say: digits, letters, what controls, and what only
/// separates, in the scripts of the world as well.
pub proof fn law_characters_are_what_they_are(c: char)
    ensures
        digit(c) <==> 48 <= c as u32 <= 57,
        hex(c) <==> 48 <= c as u32 <= 57 || 65 <= c as u32 <= 70 || 97 <= c as u32 <= 102,
        alphanumeric(c) <==> 48 <= c as u32 <= 57 || 65 <= c as u32 <= 90 || 97 <= c as u32 <= 122,
        control(c) <==> (c as u32) < 32 || 127 <= c as u32 <= 159,
        (c as u32) < 128 ==> (space(c) <==> c as u32 == 32 || 9 <= c as u32 <= 13),
        space(c) && (c as u32) >= 128 ==> c as u32 == 0x85 || c as u32 == 0xa0 || c as u32 == 0x1680
            || 0x2000 <= c as u32 <= 0x200a || c as u32 == 0x2028 || c as u32 == 0x2029 || c as u32
            == 0x202f || c as u32 == 0x205f || c as u32 == 0x3000,
        c as u32 == 0x85 || c as u32 == 0xa0 || c as u32 == 0x1680 || 0x2000 <= c as u32 <= 0x200a
            || c as u32 == 0x2028 || c as u32 == 0x2029 || c as u32 == 0x202f || c as u32 == 0x205f
            || c as u32 == 0x3000 ==> space(c),
{
}

/// Bytes are written as two digits each, the higher first.
pub proof fn law_bytes_are_written_in_two_digits(bytes: Seq<u8>, i: int)
    requires
        0 <= i < bytes.len(),
    ensures
        lower_hex(bytes).len() == 2 * bytes.len(),
        lower_hex(bytes)[2 * i] == numeral(bytes[i] as int / 16),
        lower_hex(bytes)[2 * i + 1] == numeral(bytes[i] as int % 16),
{
}

/// Digits stand for their numbers, letters from ten on.
pub proof fn law_digits_stand_for_their_numbers(n: int)
    requires
        0 <= n < 16,
    ensures
        n < 10 ==> numeral(n) as u32 == 48 + n,
        n >= 10 ==> numeral(n) as u32 == 87 + n,
{
}

/// What a text begins with is skipped as often as it stands there.
pub proof fn law_leading_characters_are_skipped(text: Seq<char>, c: char)
    ensures
        behind(seq![c] + text, c) == behind(text, c),
        text.len() > 0 && text[0] != c ==> behind(text, c) == text,
        text.len() == 0 ==> behind(text, c).len() == 0,
{
    assert((seq![c] + text).drop_first() == text);
}

/// Values are written as usual: what has parts, part by part, with commas between them.
pub proof fn law_values_are_written_part_by_part(
    one: JsonView,
    other: JsonView,
    name: Seq<char>,
    text: Seq<char>,
)
    ensures
        json_text(JsonView::Null) == "null"@,
        json_text(JsonView::Bool(true)) == "true"@,
        json_text(JsonView::Bool(false)) == "false"@,
        json_text(JsonView::Number(text)) == text,
        json_text(JsonView::List(seq![one, other])) == seq!['['] + (json_text(one) + seq![',']
            + json_text(other)) + seq![']'],
        json_text(JsonView::Object(seq![(name, one)])) == seq!['{'] + (json_text(
            JsonView::Text(name),
        ) + seq![':'] + json_text(one)) + seq!['}'],
{
    reveal_with_fuel(json_text, 3);
    reveal_with_fuel(crate::json::items_text, 3);
    reveal_with_fuel(crate::json::members_text, 3);
    let pair = seq![one, other];
    assert(pair.drop_first()[0] == other);
}

/// What ended a run is told as where it happened.
pub proof fn law_ended_runs_are_told(e: RunError)
    ensures
        match e {
            RunError::Unread => run_message(e)
                == "Something could not be read; nothing was changed"@,
            RunError::Account(status) => run_message(e)
                == "Mastodon credentials (read:accounts required)"@ + ": HTTP "@ + decimal(
                status as nat,
            ) + " (body redacted)"@,
            RunError::Discord(d) => run_message(e) == discord_message(d),
            RunError::Engine(d) => run_message(e) == engine_message(d),
        },
{
}

/// What went wrong while the servers were listened to is told in words that name it.
pub proof fn law_refusals_of_the_service_are_told(e: DiscordError)
    ensures
        discord_message(e) == match e {
            DiscordError::UnexpectedNotFound => "Discord: unexpected 404; check server membership and permissions"@,
            DiscordError::Status(status) => "Discord voice"@ + ": HTTP "@ + decimal(status as nat) + " (body redacted)"@,
            DiscordError::VoiceState => "Invalid voice state"@,
            DiscordError::MissingMembers => "Missing guild members"@,
            DiscordError::MissingChannels => "Missing guild channels"@,
            DiscordError::InaccessibleChannel => "Configured voice channel is missing or inaccessible"@,
            DiscordError::MissingStates => "Missing guild voice states"@,
            DiscordError::MissingUserId => "Missing voice user ID"@,
            DiscordError::AbsentMember => "Streaming member absent from snapshot; retry later"@,
            DiscordError::MemberId => "Invalid member ID"@,
            DiscordError::Budget => "Discord identify budget exhausted; wait for reset"@,
            DiscordError::MissingGatewayUrl => "Missing gateway URL"@,
            DiscordError::GatewayUrl => "Invalid gateway URL"@,
            DiscordError::GatewayHost => "Unexpected Discord gateway host"@,
            DiscordError::Heartbeat => "Discord heartbeat unacknowledged; snapshot discarded"@,
            DiscordError::MissingInterval => "Missing heartbeat interval"@,
            DiscordError::InvalidInterval => "Invalid heartbeat interval"@,
            DiscordError::Reconnect => "Discord requested reconnect; retry on next run"@,
            DiscordError::MissingGuilds => "Missing READY guilds"@,
            DiscordError::NotMember => "Bot is not a member of every configured server"@,
            DiscordError::MissingGuildId => "Missing guild ID"@,
            DiscordError::Unavailable => "Configured Discord server is unavailable"@,
        },
{
}

/// Why a delivery stopped is told in words that name it, and what to do about it.
pub proof fn law_stopped_deliveries_are_told(e: EngineError)
    ensures
        engine_message(e) == match e {
            EngineError::MalformedTarget => "Malformed state target"@,
            EngineError::ImageChannel => "Pending image requires its announcement channel"@,
            EngineError::ImageGone => "Pending image no longer available; ask the streamer to resend it with !sirucord"@,
            EngineError::Messages => "Discord messages unavailable"@,
            EngineError::Uncertain => "Uncertain Mastodon delivery is older than 55 minutes. Inspect the destination account, then use resolve --target GUILD:USER --posted or --retry. State preserved; automatic duplicate posting stopped."@,
            EngineError::Upload => "Image upload failed"@,
            EngineError::Publication => "Publication failed"@,
            EngineError::Unsaved => "State could not be saved; nothing more is published"@,
            EngineError::NothingPending => "No pending delivery for target"@,
        },
{
}

/// Why a channel could not be shared is told in words that name it.
pub proof fn law_unread_channels_are_told(e: ShareError)
    ensures
        share_message(e) == match e {
            ShareError::Status(status) => "Discord shared channel"@ + ": HTTP "@ + decimal(status as nat) + " (body redacted)"@,
            ShareError::Response => "Invalid shared channel response (details redacted)"@,
            ShareError::MissingId => "Missing shared message ID"@,
            ShareError::InvalidId => "Invalid shared message ID"@,
            ShareError::Cursor => "Invalid shared channel cursor"@,
            ShareError::Engine(e) => engine_message(e),
        },
{
}

/// Why something could not be posted is told in words that name it.
pub proof fn law_refused_posts_are_told(e: MastodonError)
    ensures
        mastodon_message(e) == match e {
            MastodonError::AttachmentUrl => "Invalid attachment URL"@,
            MastodonError::AttachmentHost => "Only official Discord attachment CDN URLs are accepted"@,
            MastodonError::AssetUrl => "Invalid activity asset URL"@,
            MastodonError::AssetHost => "Only official Discord application assets are accepted"@,
            MastodonError::TooLarge => "Image exceeds 8 MiB"@,
            MastodonError::ImageType => "Unsupported image: expected PNG, JPEG or WebP"@,
            MastodonError::Status(service, status) => (match service {
                    Service::Credentials => "Mastodon credentials (read:accounts required)"@,
                    Service::Download => "Discord image download"@,
                    Service::Upload => "Mastodon upload"@,
                    Service::Processing => "Mastodon media processing"@,
                    Service::Status => "Mastodon status"@,
                }) + ": HTTP "@ + decimal(status as nat) + " (body redacted)"@,
            MastodonError::MissingMediaId => "Missing media ID"@,
            MastodonError::Timeout => "Mastodon media processing timed out"@,
            MastodonError::MissingStatusId => "Missing status ID"@,
        },
{
}

/// An answer is held whole, in order, or not at all: in two parts it comes to the same as in one.
pub proof fn law_answers_are_held_whole(
    bytes: Seq<u8>,
    one: Seq<u8>,
    other: Seq<u8>,
    limit: nat,
)
    ensures
        taken_in(bytes, one, limit) is Some <==> bytes.len() + one.len() <= limit,
        taken_in(bytes, one, limit) matches Some(held) ==> {
            &&& held == bytes + one
            &&& taken_in(held, other, limit) == taken_in(bytes, one + other, limit)
        },
{
    assert((bytes + one) + other == bytes + (one + other));
}

/// Channels are asked for their messages: for a hundred where people announce, and for the last
/// one where they share; and nobody is listened to where there are no servers.
pub proof fn law_channels_are_asked_for_their_messages(
    base: Seq<char>,
    token: Seq<char>,
    channel: Seq<char>,
    servers: nat,
)
    ensures
        announcements_request(base, token, channel) == reading(
            base + "/channels/"@ + channel + "/messages?limit="@ + "100"@,
            "Bot "@ + token,
        ),
        shared_request(base, token, channel) == reading(
            base + "/channels/"@ + channel + "/messages?limit="@ + "1"@,
            "Bot "@ + token,
        ),
        discovery_request(base, token, servers) == (if servers == 0 {
            None
        } else {
            Some(reading(base + "/gateway/bot"@, "Bot "@ + token))
        }),
{
}

/// The account is asked for, images are uploaded and asked after, as who holds the token.
pub proof fn law_the_account_is_asked_as_itself(base: Seq<char>, token: Seq<char>, id: Seq<char>)
    ensures
        credentials_request(base, token) == reading(
            base + "/api/v1/accounts/verify_credentials"@,
            "Bearer "@ + token,
        ),
        upload_place(base, token) == (base + "/api/v2/media"@, "Bearer "@ + token),
        poll_request(base, token, id) == reading(
            base + "/api/v1/media/"@ + id,
            "Bearer "@ + token,
        ),
{
}

} // verus!
