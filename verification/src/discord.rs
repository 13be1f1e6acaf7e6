//! Discord's data, and the rules on announcement messages.
use vstd::prelude::*;
use vstd::string::*;

use crate::activity::{
    channel_name, context_of, find_id, find_user, first_where, has_id, items_in, name_channel, of_user,
    ActivityView, StreamContext, StreamContextView,
};
use crate::avatars::{
    member_avatar, member_result, name_of, shown_name, Avatar, AvatarView,
};
use crate::config::{Server, ServerView, Streamer, StreamerView};
use crate::http::{
    failure, failure_text, is_success, read, reading, succeeded, Request, RequestView,
};
use crate::json::{
    has_member, list_in, member, text_in, views, Json, JsonView,
};
use crate::number::{parse_u64, parsed};
use crate::table::{lemma_precedes_total, lemma_precedes_transitive, less, precedes};
use crate::text::{
    after, begins, blank, chars_of, control, first, is_blank, is_control, lemma_filter_step,
    same, starts_with, strip_prefix, trim, trimmed,
};
use crate::time::Timestamp;

verus! {

/// Where an image comes from.
#[derive(Clone, Copy, Debug, PartialEq, Eq, Structural)]
pub enum ImageSource {
    DiscordAttachment,
    ActivityAsset,
}

impl Default for ImageSource {
    fn default() -> (r: Self)
        ensures
            r == ImageSource::DiscordAttachment,
    {
        ImageSource::DiscordAttachment
    }
}

/// An image that a post may carry.
#[derive(Debug)]
pub struct Attachment {
    pub source: ImageSource,
    pub id: String,
    pub url: String,
    pub content_type: Option<String>,
    pub size: u64,
}

pub struct AttachmentView {
    pub source: ImageSource,
    pub id: Seq<char>,
    pub url: Seq<char>,
    pub content_type: Option<Seq<char>>,
    pub size: u64,
}

impl View for Attachment {
    type V = AttachmentView;

    open spec fn view(&self) -> AttachmentView {
        AttachmentView {
            source: self.source,
            id: self.id@,
            url: self.url@,
            content_type: self.content_type.deep_view(),
            size: self.size,
        }
    }
}

impl DeepView for Attachment {
    type V = AttachmentView;

    open spec fn deep_view(&self) -> AttachmentView {
        self@
    }
}

impl Clone for Attachment {
    fn clone(&self) -> (r: Self)
        ensures
            r@ == self@,
    {
        Attachment {
            source: self.source,
            id: self.id.clone(),
            url: self.url.clone(),
            content_type: clone_text(&self.content_type),
            size: self.size,
        }
    }
}

/// A copy of an optional text.
pub fn clone_text(text: &Option<String>) -> (r: Option<String>)
    ensures
        r.deep_view() == text.deep_view(),
{
    match text {
        Some(t) => Some(t.clone()),
        None => None,
    }
}

/// A copy of a list of texts.
pub fn clone_texts(texts: &Vec<String>) -> (r: Vec<String>)
    ensures
        r.deep_view() == texts.deep_view(),
{
    let mut out: Vec<String> = Vec::new();
    for i in 0..texts.len()
        invariant
            out.deep_view() == texts.deep_view().take(i as int),
    {
        let ghost held = out.deep_view();
        out.push(texts[i].clone());
        proof {
            assert(out.deep_view() =~= held.push(texts@[i as int]@));
            assert(texts.deep_view().take(i + 1) =~= held.push(texts@[i as int]@));
        }
    }
    assert(texts.deep_view().take(texts@.len() as int) =~= texts.deep_view());
    out
}

/// The author of a message.
#[derive(Debug)]
pub struct User {
    pub id: String,
    pub bot: bool,
}

/// A message of an announcement channel.
#[derive(Debug)]
pub struct Announcement {
    pub id: String,
    pub author: User,
    pub content: String,
    pub timestamp: Timestamp,
    pub attachments: Vec<Attachment>,
    pub webhook_id: Option<String>,
}

/// A character that can notify nobody: the commercial at gives way to its wide form.
pub open spec fn defused(c: char) -> char {
    if c == '@' {
        '＠'
    } else {
        c
    }
}

pub open spec fn printable() -> spec_fn(char) -> bool {
    |c: char| !control(c)
}

/// What may be published of a text: its first `max` characters that are no control
/// characters, none of them able to mention anybody.
pub open spec fn cleaned(text: Seq<char>, max: nat) -> Seq<char> {
    first(text.filter(printable()), max).map_values(|c: char| defused(c))
}

pub fn clean(text: &str, max: usize) -> (r: String)
    ensures
        r@ == cleaned(text@, max as nat),
        r@.len() <= max,
{
    let chars = chars_of(text);
    let mut kept: Vec<char> = Vec::new();
    assert(chars@.take(0).filter(printable()) =~= Seq::<char>::empty()) by {
        reveal(Seq::filter);
    }
    for i in 0..chars.len()
        invariant
            kept@ == chars@.take(i as int).filter(printable()),
    {
        proof {
            lemma_filter_step(chars@, printable(), i as int);
        }
        if !is_control(chars[i]) {
            kept.push(chars[i]);
        }
    }
    assert(chars@.take(chars@.len() as int) =~= chars@);
    let end: usize = if kept.len() <= max {
        kept.len()
    } else {
        max
    };
    let ghost short = first(kept@, max as nat);
    assert(kept@.take(end as int) =~= short);
    let mut out = String::new();
    for i in 0..end
        invariant
            end <= kept.len(),
            short == kept@.take(end as int),
            out@ == short.take(i as int).map_values(|c: char| defused(c)),
    {
        proof {
            assert(short.take(i + 1).map_values(|c: char| defused(c)) =~= short.take(
                i as int,
            ).map_values(|c: char| defused(c)).push(defused(kept@[i as int])));
        }
        out.push(
            if kept[i] == '@' {
                '＠'
            } else {
                kept[i]
            },
        );
    }
    assert(short.take(end as int) =~= short);
    out
}

/// A cleaned text is within its bound and holds neither control characters nor mentions.
pub proof fn law_cleaned_is_safe(text: Seq<char>, max: nat)
    ensures
        cleaned(text, max).len() <= max,
        forall|i: int|
            0 <= i < cleaned(text, max).len() ==> !control(#[trigger] cleaned(text, max)[i])
                && cleaned(text, max)[i] != '@',
{
    let kept = text.filter(printable());
    assert forall|i: int| 0 <= i < cleaned(text, max).len() implies !control(
        #[trigger] cleaned(text, max)[i],
    ) && cleaned(text, max)[i] != '@' by {
        text.lemma_filter_pred(printable(), i);
        assert(printable()(kept[i]));
        assert(cleaned(text, max)[i] == defused(kept[i]));
        assert('＠' as u32 == 0xff20);
    }
}

/// Only a person's own messages count: neither a bot's nor a webhook's.
pub open spec fn authored(message: Announcement, user: Seq<char>) -> bool {
    message.author.id@ == user && !message.author.bot && message.webhook_id is None
}

fn eligible(message: &Announcement, user: &str) -> (r: bool)
    ensures
        r == authored(*message, user@),
{
    same(message.author.id.as_str(), user) && !message.author.bot && message.webhook_id.is_none()
}

/// Whether the message at `i` is the newest that `pick` accepts; of equally new ones, the
/// last.
pub open spec fn newest(
    messages: Seq<Announcement>,
    pick: spec_fn(Announcement) -> bool,
    i: int,
) -> bool {
    &&& 0 <= i < messages.len()
    &&& pick(messages[i])
    &&& forall|j: int|
        0 <= j < messages.len() && pick(#[trigger] messages[j]) ==> messages[j].timestamp.at()
            <= messages[i].timestamp.at() && (messages[j].timestamp.at()
            == messages[i].timestamp.at() ==> j <= i)
}

/// For how long a caption counts, in seconds.
pub const CAPTION_SECONDS: u32 = 43_200;

/// The caption that a message spells behind the command word.
pub open spec fn caption(message: Announcement) -> Seq<char> {
    trimmed(message.content@.skip("!sirucord "@.len() as int))
}

/// A person's own caption of the last twelve hours.
pub open spec fn captioned(user: Seq<char>, now: Timestamp) -> spec_fn(Announcement) -> bool {
    |m: Announcement|
        {
            &&& authored(m, user)
            &&& now.at_before(CAPTION_SECONDS as int) <= m.timestamp.at() <= now.at()
            &&& begins(m.content@, "!sirucord "@)
            &&& caption(m).len() > 0
        }
}

/// The text of the newest caption that a person wrote in the last twelve hours.
pub open spec fn title_of(
    messages: Seq<Announcement>,
    user: Seq<char>,
    now: Timestamp,
) -> Option<Seq<char>> {
    let pick = captioned(user, now);
    if exists|i: int| newest(messages, pick, i) {
        Some(cleaned(caption(messages[choose|i: int| newest(messages, pick, i)]), 200))
    } else {
        None
    }
}

/// The newest caption that a person wrote in the last twelve hours.
pub fn title(messages: &[Announcement], user: &str, now: Timestamp) -> (r: Option<String>)
    ensures
        r.deep_view() == title_of(messages@, user@, now),
        match r {
            Some(text) => exists|i: int|
                #[trigger] newest(messages@, captioned(user@, now), i) && text@ == cleaned(
                    caption(messages@[i]),
                    200,
                ),
            None => forall|i: int|
                0 <= i < messages@.len() ==> !captioned(user@, now)(#[trigger] messages@[i]),
        },
{
    let ghost pick = captioned(user@, now);
    let mut best: Option<usize> = None;
    let mut found: Option<String> = None;
    for i in 0..messages.len()
        invariant
            pick == captioned(user@, now),
            match (best, found) {
                (Some(b), Some(text)) => newest(messages@.take(i as int), pick, b as int)
                    && text@ == caption(messages@[b as int]),
                (None, None) => forall|j: int|
                    0 <= j < i ==> !pick(#[trigger] messages@[j]),
                _ => false,
            },
    {
        let m = &messages[i];
        let ghost held = messages@.take(i as int);
        let ghost longer = messages@.take(i + 1);
        let recent = m.timestamp.total() <= now.total() && now.total_before(CAPTION_SECONDS)
            <= m.timestamp.total();
        let mut text: Option<String> = None;
        if eligible(m, user) && recent {
            if let Some(rest) = strip_prefix(m.content.as_str(), "!sirucord ") {
                let words = trim(rest.as_str());
                if !words.as_str().is_empty() {
                    text = Some(words);
                }
            }
        }
        assert(text is Some <==> pick(*m));
        let later = match best {
            Some(b) => messages[b].timestamp.total() <= m.timestamp.total(),
            None => true,
        };
        if text.is_some() && later {
            proof {
                assert forall|j: int| 0 <= j < longer.len() && pick(#[trigger] longer[j]) implies (
                longer[j].timestamp.at() <= m.timestamp.at() && (longer[j].timestamp.at()
                    == m.timestamp.at() ==> j <= i)) by {
                    if j < i {
                        assert(pick(held[j]));
                        assert(pick(messages@[j]));
                    }
                }
                assert(newest(longer, pick, i as int));
            }
            best = Some(i);
            found = text;
        } else {
            proof {
                if let Some(b) = best {
                    assert forall|j: int| 0 <= j < longer.len() && pick(#[trigger] longer[j]) implies (
                    longer[j].timestamp.at() <= longer[b as int].timestamp.at() && (
                    longer[j].timestamp.at() == longer[b as int].timestamp.at() ==> j <= b)) by {
                        if j < i {
                            assert(pick(held[j]));
                        }
                    }
                    assert(newest(longer, pick, b as int));
                }
            }
        }
    }
    assert(messages@.take(messages@.len() as int) =~= messages@);
    match found {
        Some(text) => {
            proof {
                let b = best->0 as int;
                assert(newest(messages@, pick, b));
                let i = choose|i: int| newest(messages@, pick, i);
                assert(pick(messages@[i]) && pick(messages@[b]));
                assert(i == b);
            }
            Some(clean(text.as_str(), 200))
        },
        None => None,
    }
}

/// The largest image that is passed on, in bytes.
pub const IMAGE_BYTES: u64 = 8_388_608;

/// An image that may be passed on: newer than the last one, not too large, and of a type
/// that the destination shows.
pub open spec fn usable(image: Attachment, used: Option<Seq<char>>) -> bool {
    &&& match used {
        Some(last) => parsed(image.id@) is Some && parsed(last) is Some && parsed(image.id@)->0
            > parsed(last)->0,
        None => true,
    }
    &&& image.size <= IMAGE_BYTES
    &&& image.content_type.deep_view() == Some("image/png"@) || image.content_type.deep_view()
        == Some("image/jpeg"@) || image.content_type.deep_view() == Some("image/webp"@)
}

fn is_usable(image: &Attachment, used: Option<&str>) -> (r: bool)
    ensures
        r == usable(
            *image,
            match used {
                Some(last) => Some(last@),
                None => None,
            },
        ),
{
    let newer = match used {
        Some(last) => match (parse_u64(image.id.as_str()), parse_u64(last)) {
            (Some(current), Some(previous)) => current > previous,
            _ => false,
        },
        None => true,
    };
    let shown = match &image.content_type {
        Some(kind) => same(kind.as_str(), "image/png") || same(kind.as_str(), "image/jpeg")
            || same(kind.as_str(), "image/webp"),
        None => false,
    };
    newer && image.size <= IMAGE_BYTES && shown
}

/// Whether the attachment at `k` is the last usable one of a message.
pub open spec fn last_usable(images: Seq<Attachment>, used: Option<Seq<char>>, k: int) -> bool {
    &&& 0 <= k < images.len()
    &&& usable(images[k], used)
    &&& forall|j: int| k < j < images.len() ==> !usable(#[trigger] images[j], used)
}

/// A person's own message with the command word, in the given time, with a usable image.
pub open spec fn illustrated(
    user: Seq<char>,
    since: Timestamp,
    now: Timestamp,
    used: Option<Seq<char>>,
) -> spec_fn(Announcement) -> bool {
    |m: Announcement|
        {
            &&& authored(m, user)
            &&& m.content@ == "!sirucord"@ || begins(m.content@, "!sirucord "@)
            &&& since.at() <= m.timestamp.at() <= now.at()
            &&& exists|k: int| last_usable(m.attachments@, used, k)
        }
}

/// The newest image that a person shared with the command word: of the newest message, the
/// last usable one.
pub open spec fn screenshot_of(
    messages: Seq<Announcement>,
    user: Seq<char>,
    since: Timestamp,
    now: Timestamp,
    used: Option<Seq<char>>,
) -> Option<AttachmentView> {
    let pick = illustrated(user, since, now, used);
    if exists|i: int| newest(messages, pick, i) {
        let images = messages[choose|i: int| newest(messages, pick, i)].attachments@;
        Some(images[choose|k: int| last_usable(images, used, k)]@)
    } else {
        None
    }
}

/// The newest image that a person shared with the command word.
pub fn screenshot(
    messages: &[Announcement],
    user: &str,
    since: Timestamp,
    now: Timestamp,
    used: Option<&str>,
) -> (r: Option<Attachment>)
    ensures
        r.deep_view() == screenshot_of(
            messages@,
            user@,
            since,
            now,
            match used {
                Some(id) => Some(id@),
                None => None,
            },
        ),
        ({
            let last = match used {
                Some(id) => Some(id@),
                None => None,
            };
            match r {
                Some(image) => exists|i: int, k: int|
                    newest(messages@, illustrated(user@, since, now, last), i) && last_usable(
                        messages@[i].attachments@,
                        last,
                        k,
                    ) && image@ == #[trigger] messages@[i].attachments@[k]@,
                None => forall|i: int|
                    0 <= i < messages@.len() ==> !illustrated(user@, since, now, last)(
                        #[trigger] messages@[i],
                    ),
            }
        }),
{
    let ghost last: Option<Seq<char>> = match used {
        Some(id) => Some(id@),
        None => None,
    };
    let ghost pick = illustrated(user@, since, now, last);
    let mut best: Option<(usize, usize)> = None;
    for i in 0..messages.len()
        invariant
            pick == illustrated(user@, since, now, last),
            last == (match used {
                Some(id) => Some(id@),
                None => None,
            }),
            match best {
                Some((b, k)) => newest(messages@.take(i as int), pick, b as int) && last_usable(
                    messages@[b as int].attachments@,
                    last,
                    k as int,
                ),
                None => forall|j: int| 0 <= j < i ==> !pick(#[trigger] messages@[j]),
            },
    {
        let m = &messages[i];
        let ghost held = messages@.take(i as int);
        let ghost longer = messages@.take(i + 1);
        let mut choice: Option<usize> = None;
        let named = same(m.content.as_str(), "!sirucord") || starts_with(
            m.content.as_str(),
            "!sirucord ",
        );
        let timely = since.total() <= m.timestamp.total() && m.timestamp.total() <= now.total();
        if eligible(m, user) && named && timely {
            let mut k: usize = m.attachments.len();
            while k > 0 && choice.is_none()
                invariant
                    k <= m.attachments.len(),
                    last == (match used {
                        Some(id) => Some(id@),
                        None => None,
                    }),
                    match choice {
                        Some(c) => last_usable(m.attachments@, last, c as int),
                        None => forall|j: int|
                            k <= j < m.attachments.len() ==> !usable(
                                #[trigger] m.attachments@[j],
                                last,
                            ),
                    },
                decreases k,
            {
                k = k - 1;
                if is_usable(&m.attachments[k], used) {
                    choice = Some(k);
                    assert(last_usable(m.attachments@, last, k as int));
                }
            }
        }
        proof {
            if let Some(c) = choice {
                assert(last_usable(m.attachments@, last, c as int));
            } else if pick(*m) {
                let k = choose|k: int| last_usable(m.attachments@, last, k);
                assert(usable(m.attachments@[k], last));
            }
            assert(choice is Some <==> pick(*m));
        }
        let later = match best {
            Some((b, _)) => messages[b].timestamp.total() <= m.timestamp.total(),
            None => true,
        };
        if choice.is_some() && later {
            proof {
                assert forall|j: int| 0 <= j < longer.len() && pick(#[trigger] longer[j]) implies (
                longer[j].timestamp.at() <= m.timestamp.at() && (longer[j].timestamp.at()
                    == m.timestamp.at() ==> j <= i)) by {
                    if j < i {
                        assert(pick(held[j]));
                        assert(pick(messages@[j]));
                    }
                }
                assert(newest(longer, pick, i as int));
            }
            best = Some((i, choice.unwrap()));
        } else {
            proof {
                if let Some((b, _)) = best {
                    assert forall|j: int| 0 <= j < longer.len() && pick(#[trigger] longer[j]) implies (
                    longer[j].timestamp.at() <= longer[b as int].timestamp.at() && (
                    longer[j].timestamp.at() == longer[b as int].timestamp.at() ==> j <= b)) by {
                        if j < i {
                            assert(pick(held[j]));
                        }
                    }
                    assert(newest(longer, pick, b as int));
                }
            }
        }
    }
    assert(messages@.take(messages@.len() as int) =~= messages@);
    match best {
        Some((b, k)) => {
            let image = messages[b].attachments[k].clone();
            proof {
                assert(newest(messages@, pick, b as int));
                let i = choose|i: int| newest(messages@, pick, i);
                assert(pick(messages@[i]) && pick(messages@[b as int]));
                assert(i == b);
                let images = messages@[b as int].attachments@;
                assert(last_usable(images, last, k as int));
                let m = choose|m: int| last_usable(images, last, m);
                assert(usable(images[m], last) && usable(images[k as int], last));
                assert(m == k);
            }
            assert(image@ == messages@[b as int].attachments@[k as int]@);
            Some(image)
        },
        None => None,
    }
}

/// Why Discord's answer is refused.
#[derive(Clone, Copy, Debug, PartialEq, Eq, Structural)]
pub enum DiscordError {
    UnexpectedNotFound,
    Status(u16),
    VoiceState,
    MissingMembers,
    MissingChannels,
    InaccessibleChannel,
    MissingStates,
    MissingUserId,
    AbsentMember,
    MemberId,
    Budget,
    MissingGatewayUrl,
    GatewayUrl,
    GatewayHost,
    Heartbeat,
    MissingInterval,
    InvalidInterval,
    Reconnect,
    MissingGuilds,
    NotMember,
    MissingGuildId,
    Unavailable,
}

/// What is said of a refusal. Nothing of the answer itself is said.
pub open spec fn discord_message(e: DiscordError) -> Seq<char> {
    match e {
        DiscordError::UnexpectedNotFound => "Discord: unexpected 404; check server membership and permissions"@,
        DiscordError::Status(status) => failure("Discord voice"@, status),
        DiscordError::VoiceState => "Invalid voice state"@,
        DiscordError::MissingMembers => "Missing guild members"@,
        DiscordError::MissingChannels => "Missing guild channels"@,
        DiscordError::InaccessibleChannel => "Configured voice channel is missing or inaccessible"@,
        DiscordError::MissingStates => "Missing guild voice states"@,
        DiscordError::MissingUserId => "Missing voice user ID"@,
        DiscordError::AbsentMember => "Streaming member absent from snapshot; retry later"@,
        DiscordError::MemberId => "Invalid member ID"@,
        DiscordError::Budget => "Discord identify budget exhausted; wait for reset"@,
        DiscordError::MissingGatewayUrl => "Missing gateway URL"@,
        DiscordError::GatewayUrl => "Invalid gateway URL"@,
        DiscordError::GatewayHost => "Unexpected Discord gateway host"@,
        DiscordError::Heartbeat => "Discord heartbeat unacknowledged; snapshot discarded"@,
        DiscordError::MissingInterval => "Missing heartbeat interval"@,
        DiscordError::InvalidInterval => "Invalid heartbeat interval"@,
        DiscordError::Reconnect => "Discord requested reconnect; retry on next run"@,
        DiscordError::MissingGuilds => "Missing READY guilds"@,
        DiscordError::NotMember => "Bot is not a member of every configured server"@,
        DiscordError::MissingGuildId => "Missing guild ID"@,
        DiscordError::Unavailable => "Configured Discord server is unavailable"@,
    }
}

impl DiscordError {
    pub fn message(&self) -> (r: String)
        ensures
            r@ == discord_message(*self),
    {
        let text = match self {
            DiscordError::UnexpectedNotFound => "Discord: unexpected 404; check server membership and permissions",
            DiscordError::Status(status) => return failure_text("Discord voice", *status),
            DiscordError::VoiceState => "Invalid voice state",
            DiscordError::MissingMembers => "Missing guild members",
            DiscordError::MissingChannels => "Missing guild channels",
            DiscordError::InaccessibleChannel => "Configured voice channel is missing or inaccessible",
            DiscordError::MissingStates => "Missing guild voice states",
            DiscordError::MissingUserId => "Missing voice user ID",
            DiscordError::AbsentMember => "Streaming member absent from snapshot; retry later",
            DiscordError::MemberId => "Invalid member ID",
            DiscordError::Budget => "Discord identify budget exhausted; wait for reset",
            DiscordError::MissingGatewayUrl => "Missing gateway URL",
            DiscordError::GatewayUrl => "Invalid gateway URL",
            DiscordError::GatewayHost => "Unexpected Discord gateway host",
            DiscordError::Heartbeat => "Discord heartbeat unacknowledged; snapshot discarded",
            DiscordError::MissingInterval => "Missing heartbeat interval",
            DiscordError::InvalidInterval => "Invalid heartbeat interval",
            DiscordError::Reconnect => "Discord requested reconnect; retry on next run",
            DiscordError::MissingGuilds => "Missing READY guilds",
            DiscordError::NotMember => "Bot is not a member of every configured server",
            DiscordError::MissingGuildId => "Missing guild ID",
            DiscordError::Unavailable => "Configured Discord server is unavailable",
        };
        text.to_owned()
    }
}

/// Somebody's presence in a voice channel.
#[derive(Debug)]
pub struct Voice {
    pub context: Option<StreamContext>,
    pub channel_id: Option<String>,
    pub session_id: String,
    pub self_stream: bool,
}

pub struct VoiceView {
    pub context: Option<StreamContextView>,
    pub channel_id: Option<Seq<char>>,
    pub session_id: Seq<char>,
    pub self_stream: bool,
}

impl View for Voice {
    type V = VoiceView;

    open spec fn view(&self) -> VoiceView {
        VoiceView {
            context: self.context.deep_view(),
            channel_id: self.channel_id.deep_view(),
            session_id: self.session_id@,
            self_stream: self.self_stream,
        }
    }
}

impl DeepView for Voice {
    type V = VoiceView;

    open spec fn deep_view(&self) -> VoiceView {
        self@
    }
}

impl Clone for Voice {
    fn clone(&self) -> (r: Self)
        ensures
            r@ == self@,
    {
        Voice {
            context: match &self.context {
                Some(c) => Some(c.clone()),
                None => None,
            },
            channel_id: clone_text(&self.channel_id),
            session_id: self.session_id.clone(),
            self_stream: self.self_stream,
        }
    }
}

/// A voice state of these parts. A channel may be null, and the stream flag may be absent.
pub open spec fn voice_of(
    channel: JsonView,
    session: JsonView,
    stream: Option<JsonView>,
) -> Option<VoiceView> {
    if (channel is Null || channel is Text) && session is Text && (stream matches Some(flag)
        ==> flag is Bool) {
        Some(
            VoiceView {
                context: None,
                channel_id: text_in(channel),
                session_id: session->Text_0,
                self_stream: stream == Some(JsonView::Bool(true)),
            },
        )
    } else {
        None
    }
}

/// A voice state: an object, whose channel may be absent, or a list of its parts in order.
pub open spec fn voice_in(raw: JsonView) -> Option<VoiceView> {
    match raw {
        JsonView::Object(_) => voice_of(
            member(raw, "channel_id"@),
            member(raw, "session_id"@),
            if has_member(raw, "self_stream"@) {
                Some(member(raw, "self_stream"@))
            } else {
                None
            },
        ),
        JsonView::List(parts) => if parts.len() == 2 {
            voice_of(parts[0], parts[1], None)
        } else if parts.len() == 3 {
            voice_of(parts[0], parts[1], Some(parts[2]))
        } else {
            None
        },
        _ => None,
    }
}

fn make_voice(channel: &Json, session: &Json, stream: Option<&Json>) -> (r: Option<Voice>)
    ensures
        r.deep_view() == voice_of(
            channel@,
            session@,
            match stream {
                Some(flag) => Some(flag@),
                None => None,
            },
        ),
{
    let channel_id = match channel.as_text() {
        Some(id) => Some(id.to_owned()),
        None => if channel.is_null() {
            None
        } else {
            return None;
        },
    };
    let session_id = match session.as_text() {
        Some(id) => id.to_owned(),
        None => return None,
    };
    let self_stream = match stream {
        None => false,
        Some(flag) => match flag {
            Json::Bool(b) => *b,
            _ => return None,
        },
    };
    Some(Voice { context: None, channel_id, session_id, self_stream })
}

impl Voice {
    pub fn from_json(raw: &Json) -> (r: Option<Voice>)
        ensures
            r.deep_view() == voice_in(raw@),
    {
        match raw {
            Json::Object(_) => {
                let stream = if raw.has("self_stream") {
                    Some(raw.get("self_stream"))
                } else {
                    None
                };
                make_voice(raw.get("channel_id"), raw.get("session_id"), stream)
            },
            Json::List(parts) => {
                assert(raw@->List_0.len() == parts@.len());
                if parts.len() == 2 {
                    make_voice(&parts[0], &parts[1], None)
                } else if parts.len() == 3 {
                    make_voice(&parts[0], &parts[1], Some(&parts[2]))
                } else {
                    None
                }
            },
            _ => None,
        }
    }
}

/// Whether a channel is one of the given ones.
pub open spec fn allowed(channels: Seq<Seq<char>>, channel: Option<Seq<char>>) -> bool {
    channel is Some && channels.contains(channel->0)
}

fn is_allowed(channels: &Vec<String>, channel: &Option<String>) -> (r: bool)
    ensures
        r == allowed(channels.deep_view(), channel.deep_view()),
{
    let id = match channel {
        Some(id) => id,
        None => return false,
    };
    let ghost shown = channels.deep_view();
    for i in 0..channels.len()
        invariant
            shown == channels.deep_view(),
            channel.deep_view() == Some(id@),
            forall|j: int| 0 <= j < i ==> #[trigger] shown[j] != id@,
    {
        if same(channels[i].as_str(), id.as_str()) {
            assert(shown[i as int] == id@);
            return true;
        }
    }
    false
}

/// What an answer on one person's voice state means. Only one answer says that the person is
/// in no channel; everything else that is no success is a failure, never an end.
pub open spec fn voice_result(
    channels: Seq<Seq<char>>,
    status: u16,
    body: JsonView,
) -> Result<Option<VoiceView>, DiscordError> {
    if status == 404 {
        if member(body, "code"@) == JsonView::Unsigned(10065) {
            Ok(None)
        } else {
            Err(DiscordError::UnexpectedNotFound)
        }
    } else if !succeeded(status) {
        Err(DiscordError::Status(status))
    } else {
        match voice_in(body) {
            None => Err(DiscordError::VoiceState),
            Some(voice) => if voice.self_stream && allowed(channels, voice.channel_id) {
                Ok(Some(voice))
            } else {
                Ok(None)
            },
        }
    }
}

/// The account that reads from Discord.
pub struct Discord {
    pub base: String,
    pub token: String,
}

/// How a bot says who it is.
pub open spec fn bot(token: Seq<char>) -> Seq<char> {
    "Bot "@ + token
}

/// Where a person's voice state is read.
pub open spec fn voice_url(base: Seq<char>, s: StreamerView) -> Seq<char> {
    base + "/guilds/"@ + s.guild_id + "/voice-states/"@ + s.user_id
}

/// Where the last messages of a channel are read.
pub open spec fn messages_url(base: Seq<char>, channel: Seq<char>, limit: Seq<char>) -> Seq<char> {
    base + "/channels/"@ + channel + "/messages?limit="@ + limit
}

/// The question for the messages of an announcement channel.
pub open spec fn announcements_request(
    base: Seq<char>,
    token: Seq<char>,
    channel: Seq<char>,
) -> RequestView {
    reading(messages_url(base, channel, "100"@), bot(token))
}

/// The question for the last message of a shared channel.
pub open spec fn shared_request(
    base: Seq<char>,
    token: Seq<char>,
    channel: Seq<char>,
) -> RequestView {
    reading(messages_url(base, channel, "1"@), bot(token))
}

/// The question for where the servers can be listened to, of whom there are so many.
pub open spec fn discovery_request(
    base: Seq<char>,
    token: Seq<char>,
    servers: nat,
) -> Option<RequestView> {
    if servers > 0 {
        Some(reading(base + "/gateway/bot"@, bot(token)))
    } else {
        None
    }
}

impl Discord {
    fn sign(&self) -> (r: String)
        ensures
            r@ == bot(self.token@),
    {
        let mut out = "Bot ".to_owned();
        out.append(self.token.as_str());
        out
    }

    /// Asks for a configured person's voice state.
    pub fn voice_request(&self, s: &Streamer) -> (r: Request)
        ensures
            r@ == reading(voice_url(self.base@, s@), bot(self.token@)),
    {
        let mut url = self.base.clone();
        url.append("/guilds/");
        url.append(s.guild_id.as_str());
        url.append("/voice-states/");
        url.append(s.user_id.as_str());
        read(url, self.sign())
    }

    /// The stream of a configured person, from the answer on their voice state.
    pub fn voice(s: &Streamer, status: u16, body: &Json) -> (r: Result<
        Option<Voice>,
        DiscordError,
    >)
        ensures
            match r {
                Ok(voice) => voice_result(s@.voice_channel_ids, status, body@) == Ok::<
                    Option<VoiceView>,
                    DiscordError,
                >(voice.deep_view()),
                Err(e) => voice_result(s@.voice_channel_ids, status, body@) == Err::<
                    Option<VoiceView>,
                    DiscordError,
                >(e),
            },
    {
        if status == 404 {
            return if body.get("code").as_unsigned() == Some(10065u64) {
                Ok(None)
            } else {
                Err(DiscordError::UnexpectedNotFound)
            };
        }
        if !is_success(status) {
            return Err(DiscordError::Status(status));
        }
        match Voice::from_json(body) {
            None => Err(DiscordError::VoiceState),
            Some(voice) => if voice.self_stream && is_allowed(
                &s.voice_channel_ids,
                &voice.channel_id,
            ) {
                Ok(Some(voice))
            } else {
                Ok(None)
            },
        }
    }

    /// Asks for the last messages of a channel.
    fn messages(&self, channel: &str, limit: &str) -> (r: Request)
        ensures
            r@ == reading(messages_url(self.base@, channel@, limit@), bot(self.token@)),
    {
        let mut url = self.base.clone();
        url.append("/channels/");
        url.append(channel);
        url.append("/messages?limit=");
        url.append(limit);
        read(url, self.sign())
    }

    /// Asks for the messages of an announcement channel.
    pub fn announcements(&self, channel: &str) -> (r: Request)
        ensures
            r@ == reading(messages_url(self.base@, channel@, "100"@), bot(self.token@)),
            r@ == announcements_request(self.base@, self.token@, channel@),
    {
        self.messages(channel, "100")
    }

    /// Asks for the last message of a shared channel.
    pub fn shared(&self, channel: &str) -> (r: Request)
        ensures
            r@ == reading(messages_url(self.base@, channel@, "1"@), bot(self.token@)),
            r@ == shared_request(self.base@, self.token@, channel@),
    {
        self.messages(channel, "1")
    }

    /// Asks where to discover the streams of servers; nothing where there are no servers.
    pub fn discover(&self, servers: &Vec<Server>) -> (r: Option<Request>)
        ensures
            match r {
                Some(request) => servers.len() > 0 && request@ == reading(
                    self.base@ + "/gateway/bot"@,
                    bot(self.token@),
                ),
                None => servers.len() == 0,
            },
            r.deep_view() == discovery_request(
                self.base@,
                self.token@,
                servers@.len(),
            ),
    {
        if servers.len() == 0 {
            return None;
        }
        let mut url = self.base.clone();
        url.append("/gateway/bot");
        Some(read(url, self.sign()))
    }
}

/// The last item that passes a test.
pub open spec fn last_where(
    items: Seq<JsonView>,
    test: spec_fn(JsonView) -> bool,
) -> Option<JsonView>
    decreases items.len(),
{
    if items.len() == 0 {
        None
    } else if test(items.last()) {
        Some(items.last())
    } else {
        last_where(items.drop_last(), test)
    }
}

/// The last member with this ID.
fn find_member<'a>(members: &'a Vec<Json>, id: &str) -> (r: Option<&'a Json>)
    ensures
        match r {
            Some(item) => last_where(views(members@), of_user(id@)) == Some(item@),
            None => last_where(views(members@), of_user(id@)) is None,
        },
{
    let ghost shown = views(members@);
    let mut i: usize = members.len();
    assert(shown.take(shown.len() as int) =~= shown);
    while i > 0
        invariant
            i <= members.len(),
            shown == views(members@),
            last_where(shown, of_user(id@)) == last_where(shown.take(i as int), of_user(id@)),
        decreases i,
    {
        i = i - 1;
        proof {
            assert(shown.take(i + 1).last() == members@[i as int]@);
            assert(shown.take(i + 1).drop_last() =~= shown.take(i as int));
        }
        if members[i].get("user").get("id").is_text(id) {
            return Some(&members[i]);
        }
    }
    None
}

/// The ID and the membership of the person that a voice state speaks of; nobody for a bot. A
/// member that is not known is an error: the state must not be taken for an empty one.
pub open spec fn person_of(members: Seq<JsonView>, raw: JsonView) -> Result<
    Option<(Seq<char>, JsonView)>,
    DiscordError,
> {
    match text_in(member(raw, "user_id"@)) {
        None => Err(DiscordError::MissingUserId),
        Some(id) => match last_where(members, of_user(id)) {
            None => Err(DiscordError::AbsentMember),
            Some(person) => if member(member(person, "user"@), "bot"@) == JsonView::Bool(true) {
                Ok(None)
            } else {
                Ok(Some((id, person)))
            },
        },
    }
}

fn find_person<'a>(members: &'a Vec<Json>, raw: &'a Json) -> (r: Result<
    Option<(&'a str, &'a Json)>,
    DiscordError,
>)
    ensures
        match r {
            Ok(Some((id, person))) => person_of(views(members@), raw@) == Ok::<
                Option<(Seq<char>, JsonView)>,
                DiscordError,
            >(Some((id@, person@))),
            Ok(None) => person_of(views(members@), raw@) == Ok::<
                Option<(Seq<char>, JsonView)>,
                DiscordError,
            >(None),
            Err(e) => person_of(views(members@), raw@) == Err::<
                Option<(Seq<char>, JsonView)>,
                DiscordError,
            >(e),
        },
{
    let id = match raw.get("user_id").as_text() {
        Some(id) => id,
        None => return Err(DiscordError::MissingUserId),
    };
    match find_member(members, id) {
        None => Err(DiscordError::AbsentMember),
        Some(person) => if person.get("user").get("bot").is_true() {
            Ok(None)
        } else {
            Ok(Some((id, person)))
        },
    }
}

/// A test on the kind of an activity: a game that is being played.
pub open spec fn is_game() -> spec_fn(JsonView) -> bool {
    |a: JsonView| member(a, "type"@) == JsonView::Unsigned(0)
}

/// The title that a person's game gives their stream.
pub open spec fn played_title(data: JsonView, user: Seq<char>) -> Option<Seq<char>> {
    match first_where(items_in(data, "presences"@), of_user(user)) {
        None => None,
        Some(presence) => match first_where(items_in(presence, "activities"@), is_game()) {
            None => None,
            Some(game) => match text_in(member(game, "name"@)) {
                None => None,
                Some(name) => if blank(cleaned(name, 150)) {
                    None
                } else {
                    Some(cleaned(name, 150) + "（Discordのプレイ中表示）"@)
                },
            },
        },
    }
}

pub fn activity_title(data: &Json, user: &str) -> (r: Option<String>)
    ensures
        r.deep_view() == played_title(data@, user@),
{
    let presences = match data.get("presences").as_list() {
        Some(list) => list,
        None => return None,
    };
    let presence = match find_user(presences, user) {
        Some(presence) => presence,
        None => return None,
    };
    let activities = match presence.get("activities").as_list() {
        Some(list) => list,
        None => return None,
    };
    let ghost shown = views(activities@);
    let mut i: usize = 0;
    assert(shown.skip(0) =~= shown);
    while i < activities.len() && activities[i].get("type").as_unsigned() != Some(0u64)
        invariant
            i <= activities.len(),
            shown == views(activities@),
            first_where(shown, is_game()) == first_where(shown.skip(i as int), is_game()),
        decreases activities.len() - i,
    {
        assert(shown.skip(i as int).drop_first() =~= shown.skip(i + 1));
        i = i + 1;
    }
    if i == activities.len() {
        return None;
    }
    assert(shown.skip(i as int)[0] == activities@[i as int]@);
    match activities[i].get("name").as_text() {
        None => None,
        Some(name) => {
            let mut title = clean(name, 150);
            if is_blank(title.as_str()) {
                None
            } else {
                title.append("（Discordのプレイ中表示）");
                Some(title)
            }
        },
    }
}

/// A person whose stream was discovered on a server.
pub open spec fn discovered(
    server: ServerView,
    data: JsonView,
    id: Seq<char>,
    person: JsonView,
) -> StreamerView {
    StreamerView {
        guild_id: server.guild_id,
        user_id: id,
        display_name: shown_name(person, "Discord配信者"@),
        voice_channel_ids: server.voice_channel_ids,
        default_title: match played_title(data, id) {
            Some(title) => if server.use_activity {
                title
            } else {
                server.default_title
            },
            None => server.default_title,
        },
        announcement_channel_id: server.announcement_channel_id,
        screenshots: server.screenshots,
    }
}

/// A target: whom or what it is about, and how it stands.
pub type Target = (Streamer, Voice);

pub type TargetView = (StreamerView, VoiceView);

/// What a voice state says of a stream: that a person streams in a configured channel, or
/// nothing.
pub open spec fn stream_of(
    server: ServerView,
    data: JsonView,
    members: Seq<JsonView>,
    raw: JsonView,
) -> Result<Option<TargetView>, DiscordError> {
    match voice_in(raw) {
        None => Err(DiscordError::VoiceState),
        Some(voice) => if !voice.self_stream || !allowed(
            server.voice_channel_ids,
            voice.channel_id,
        ) {
            Ok(None)
        } else {
            match person_of(members, raw) {
                Err(e) => Err(e),
                Ok(None) => Ok(None),
                Ok(Some((id, person))) => Ok(
                    Some(
                        (
                            discovered(server, data, id, person),
                            VoiceView {
                                context: if server.use_activity {
                                    Some(context_of(data, id, voice.channel_id->0))
                                } else {
                                    None
                                },
                                ..voice
                            },
                        ),
                    ),
                ),
            }
        },
    }
}

fn find_stream(server: &Server, data: &Json, members: &Vec<Json>, raw: &Json) -> (r: Result<
    Option<Target>,
    DiscordError,
>)
    ensures
        match r {
            Ok(found) => stream_of(server@, data@, views(members@), raw@) == Ok::<
                Option<TargetView>,
                DiscordError,
            >(found.deep_view()),
            Err(e) => stream_of(server@, data@, views(members@), raw@) == Err::<
                Option<TargetView>,
                DiscordError,
            >(e),
        },
{
    let mut voice = match Voice::from_json(raw) {
        Some(voice) => voice,
        None => return Err(DiscordError::VoiceState),
    };
    if !voice.self_stream || !is_allowed(&server.voice_channel_ids, &voice.channel_id) {
        return Ok(None);
    }
    match find_person(members, raw) {
        Err(e) => Err(e),
        Ok(None) => Ok(None),
        Ok(Some((id, person))) => {
            let title = if server.use_activity {
                activity_title(data, id)
            } else {
                None
            };
            if server.use_activity {
                if let Some(channel) = &voice.channel_id {
                    voice.context = Some(StreamContext::from_guild(data, id, channel.as_str()));
                }
            }
            let streamer = Streamer {
                guild_id: server.guild_id.clone(),
                user_id: id.to_owned(),
                display_name: name_of(person, "Discord配信者").to_owned(),
                voice_channel_ids: clone_texts(&server.voice_channel_ids),
                default_title: match title {
                    Some(title) => title,
                    None => server.default_title.clone(),
                },
                announcement_channel_id: clone_text(&server.announcement_channel_id),
                screenshots: server.screenshots,
            };
            Ok(Some((streamer, voice)))
        },
    }
}

/// The streams among voice states, in order, or the first error.
pub open spec fn streams_of(
    server: ServerView,
    data: JsonView,
    members: Seq<JsonView>,
    states: Seq<JsonView>,
) -> Result<Seq<TargetView>, DiscordError>
    decreases states.len(),
{
    if states.len() == 0 {
        Ok(Seq::empty())
    } else {
        match streams_of(server, data, members, states.drop_last()) {
            Err(e) => Err(e),
            Ok(list) => match stream_of(server, data, members, states.last()) {
                Err(e) => Err(e),
                Ok(None) => Ok(list),
                Ok(Some(found)) => Ok(list.push(found)),
            },
        }
    }
}

/// An error among the first voice states is the error of all.
proof fn lemma_streams_error(
    server: ServerView,
    data: JsonView,
    members: Seq<JsonView>,
    states: Seq<JsonView>,
    n: int,
)
    requires
        0 <= n <= states.len(),
        streams_of(server, data, members, states.take(n)) is Err,
    ensures
        streams_of(server, data, members, states) == streams_of(
            server,
            data,
            members,
            states.take(n),
        ),
    decreases states.len(),
{
    if n == states.len() {
        assert(states.take(n) =~= states);
    } else {
        assert(states.drop_last().take(n) =~= states.take(n));
        lemma_streams_error(server, data, members, states.drop_last(), n);
    }
}

fn find_streams(
    server: &Server,
    data: &Json,
    members: &Vec<Json>,
    states: &Vec<Json>,
) -> (r: Result<Vec<Target>, DiscordError>)
    ensures
        match r {
            Ok(found) => streams_of(server@, data@, views(members@), views(states@)) == Ok::<
                Seq<TargetView>,
                DiscordError,
            >(found.deep_view()),
            Err(e) => streams_of(server@, data@, views(members@), views(states@)) == Err::<
                Seq<TargetView>,
                DiscordError,
            >(e),
        },
{
    let ghost known = views(members@);
    let ghost shown = views(states@);
    let mut list: Vec<Target> = Vec::new();
    assert(list.deep_view() =~= Seq::<TargetView>::empty());
    for i in 0..states.len()
        invariant
            known == views(members@),
            shown == views(states@),
            streams_of(server@, data@, known, shown.take(i as int)) == Ok::<
                Seq<TargetView>,
                DiscordError,
            >(list.deep_view()),
    {
        let ghost held = list.deep_view();
        let ghost longer = shown.take(i + 1);
        proof {
            assert(longer.drop_last() =~= shown.take(i as int));
            assert(longer.last() == states@[i as int]@);
        }
        match find_stream(server, data, members, &states[i]) {
            Err(e) => {
                proof {
                    lemma_streams_error(server@, data@, known, shown, i + 1);
                }
                return Err(e);
            },
            Ok(None) => {},
            Ok(Some(found)) => {
                list.push(found);
                assert(list.deep_view() =~= held.push(found.deep_view()));
            },
        }
    }
    assert(shown.take(shown.len() as int) =~= shown);
    Ok(list)
}

/// A person in a voice channel.
pub struct Occupant {
    pub id: String,
    pub avatar: Avatar,
}

pub struct OccupantView {
    pub id: Seq<char>,
    pub avatar: AvatarView,
}

impl View for Occupant {
    type V = OccupantView;

    open spec fn view(&self) -> OccupantView {
        OccupantView { id: self.id@, avatar: self.avatar@ }
    }
}

impl DeepView for Occupant {
    type V = OccupantView;

    open spec fn deep_view(&self) -> OccupantView {
        self@
    }
}

/// A person put into a list that is ascending by ID, unless they are in it.
pub open spec fn seated(list: Seq<OccupantView>, person: OccupantView) -> Seq<OccupantView>
    decreases list.len(),
{
    if list.len() == 0 || precedes(list.last().id, person.id) {
        list.push(person)
    } else if list.last().id == person.id {
        list
    } else {
        seated(list.drop_last(), person).push(list.last())
    }
}

fn seat(list: &mut Vec<Occupant>, person: Occupant)
    ensures
        final(list).deep_view() == seated(old(list).deep_view(), person@),
{
    let ghost before = list.deep_view();
    let mut at: usize = list.len();
    assert(before.take(before.len() as int) =~= before);
    assert(seated(before, person@) + before.skip(before.len() as int) =~= seated(before, person@));
    while at > 0 && !less(list[at - 1].id.as_str(), person.id.as_str()) && !same(
        list[at - 1].id.as_str(),
        person.id.as_str(),
    )
        invariant
            at <= list.len(),
            before == list.deep_view(),
            seated(before, person@) == seated(before.take(at as int), person@) + before.skip(
                at as int,
            ),
        decreases at,
    {
        proof {
            let head = before.take(at as int);
            assert(head.drop_last() =~= before.take(at - 1));
            assert(seated(head.drop_last(), person@).push(head.last()) + before.skip(at as int)
                =~= seated(before.take(at - 1), person@) + before.skip(at - 1));
        }
        at = at - 1;
    }
    if at > 0 && same(list[at - 1].id.as_str(), person.id.as_str()) {
        proof {
            lemma_precedes_total(person@.id, person@.id);
            assert(before.take(at as int).last().id == person@.id);
            assert(before.take(at as int) + before.skip(at as int) =~= before);
        }
        return;
    }
    list.insert(at, person);
    proof {
        assert(list.deep_view() =~= before.take(at as int).push(person@) + before.skip(at as int));
    }
}

/// The people in a voice channel, ascending by ID, or the first error.
pub open spec fn occupants_of(
    guild: Seq<char>,
    members: Seq<JsonView>,
    states: Seq<JsonView>,
    channel: Seq<char>,
) -> Result<Seq<OccupantView>, DiscordError>
    decreases states.len(),
{
    if states.len() == 0 {
        Ok(Seq::empty())
    } else {
        match occupants_of(guild, members, states.drop_last(), channel) {
            Err(e) => Err(e),
            Ok(list) => if member(states.last(), "channel_id"@) != JsonView::Text(channel) {
                Ok(list)
            } else {
                match person_of(members, states.last()) {
                    Err(e) => Err(e),
                    Ok(None) => Ok(list),
                    Ok(Some((id, person))) => match member_result(person, guild) {
                        Err(_) => Err(DiscordError::MemberId),
                        Ok(avatar) => Ok(seated(list, OccupantView { id, avatar })),
                    },
                }
            },
        }
    }
}

/// An error among the first voice states is the error of all.
proof fn lemma_occupants_error(
    guild: Seq<char>,
    members: Seq<JsonView>,
    states: Seq<JsonView>,
    channel: Seq<char>,
    n: int,
)
    requires
        0 <= n <= states.len(),
        occupants_of(guild, members, states.take(n), channel) is Err,
    ensures
        occupants_of(guild, members, states, channel) == occupants_of(
            guild,
            members,
            states.take(n),
            channel,
        ),
    decreases states.len(),
{
    if n == states.len() {
        assert(states.take(n) =~= states);
    } else {
        assert(states.drop_last().take(n) =~= states.take(n));
        lemma_occupants_error(guild, members, states.drop_last(), channel, n);
    }
}

fn find_occupants(guild: &str, members: &Vec<Json>, states: &Vec<Json>, channel: &str) -> (r: Result<
    Vec<Occupant>,
    DiscordError,
>)
    ensures
        match r {
            Ok(found) => occupants_of(guild@, views(members@), views(states@), channel@) == Ok::<
                Seq<OccupantView>,
                DiscordError,
            >(found.deep_view()),
            Err(e) => occupants_of(guild@, views(members@), views(states@), channel@) == Err::<
                Seq<OccupantView>,
                DiscordError,
            >(e),
        },
{
    let ghost known = views(members@);
    let ghost shown = views(states@);
    let mut list: Vec<Occupant> = Vec::new();
    assert(list.deep_view() =~= Seq::<OccupantView>::empty());
    for i in 0..states.len()
        invariant
            known == views(members@),
            shown == views(states@),
            occupants_of(guild@, known, shown.take(i as int), channel@) == Ok::<
                Seq<OccupantView>,
                DiscordError,
            >(list.deep_view()),
    {
        let ghost longer = shown.take(i + 1);
        proof {
            assert(longer.drop_last() =~= shown.take(i as int));
            assert(longer.last() == states@[i as int]@);
        }
        if states[i].get("channel_id").is_text(channel) {
            match find_person(members, &states[i]) {
                Err(e) => {
                    proof {
                        lemma_occupants_error(guild@, known, shown, channel@, i + 1);
                    }
                    return Err(e);
                },
                Ok(None) => {},
                Ok(Some((id, person))) => match member_avatar(person, guild) {
                    Err(_) => {
                        proof {
                            lemma_occupants_error(guild@, known, shown, channel@, i + 1);
                        }
                        return Err(DiscordError::MemberId);
                    },
                    Ok(avatar) => {
                        seat(&mut list, Occupant { id: id.to_owned(), avatar });
                    },
                },
            }
        }
    }
    assert(shown.take(shown.len() as int) =~= shown);
    Ok(list)
}

/// The name under which a channel itself is a target.
pub open spec fn room_id(channel: Seq<char>) -> Seq<char> {
    "voice-"@ + channel
}

/// A channel that people are in while nobody streams there.
pub open spec fn occupied(
    server: ServerView,
    data: JsonView,
    channel: Seq<char>,
    people: Seq<OccupantView>,
) -> TargetView {
    (
        StreamerView {
            guild_id: server.guild_id,
            user_id: room_id(channel),
            display_name: channel_name(data, channel),
            voice_channel_ids: server.voice_channel_ids,
            default_title: server.default_title,
            announcement_channel_id: server.announcement_channel_id,
            screenshots: server.screenshots,
        },
        VoiceView {
            context: Some(
                StreamContextView {
                    voice_members: people.map_values(|p: OccupantView| p.avatar.name),
                    avatars: people.map_values(|p: OccupantView| p.avatar),
                    channel_name: channel_name(data, channel),
                    participants: people.len(),
                    activities: Seq::empty(),
                },
            ),
            channel_id: Some(channel),
            session_id: room_id(channel),
            self_stream: false,
        },
    )
}

/// Whether somebody streams in a channel.
pub open spec fn streamed_in(streams: Seq<TargetView>, channel: Seq<char>) -> bool {
    exists|i: int| 0 <= i < streams.len() && (#[trigger] streams[i]).1.channel_id == Some(channel)
}

/// What a channel without a stream is as a target: nothing where only bots are in it.
pub open spec fn room_of(
    server: ServerView,
    data: JsonView,
    streams: Seq<TargetView>,
    channel: Seq<char>,
) -> Result<Option<TargetView>, DiscordError> {
    if streamed_in(streams, channel) {
        Ok(None)
    } else {
        match occupants_of(
            server.guild_id,
            items_in(data, "members"@),
            items_in(data, "voice_states"@),
            channel,
        ) {
            Err(e) => Err(e),
            Ok(people) => if people.len() == 0 {
                Ok(None)
            } else {
                Ok(Some(occupied(server, data, channel, people)))
            },
        }
    }
}

/// Whether the channel at `n` is configured before, too.
pub open spec fn repeated(channels: Seq<Seq<char>>, n: int) -> bool {
    channels.take(n).contains(channels[n])
}

/// The first channels that are targets themselves, in order and each once, or the first error.
pub open spec fn rooms_of(
    server: ServerView,
    data: JsonView,
    streams: Seq<TargetView>,
    n: int,
) -> Result<Seq<TargetView>, DiscordError>
    decreases n,
{
    if n <= 0 {
        Ok(Seq::empty())
    } else {
        match rooms_of(server, data, streams, n - 1) {
            Err(e) => Err(e),
            Ok(list) => if repeated(server.voice_channel_ids, n - 1) {
                Ok(list)
            } else {
                match room_of(server, data, streams, server.voice_channel_ids[n - 1]) {
                    Err(e) => Err(e),
                    Ok(None) => Ok(list),
                    Ok(Some(room)) => Ok(list.push(room)),
                }
            },
        }
    }
}

/// An error among the first channels is the error of all.
proof fn lemma_rooms_error(
    server: ServerView,
    data: JsonView,
    streams: Seq<TargetView>,
    m: int,
    n: int,
)
    requires
        m <= n,
        rooms_of(server, data, streams, m) is Err,
    ensures
        rooms_of(server, data, streams, n) == rooms_of(server, data, streams, m),
    decreases n - m,
{
    if m < n {
        lemma_rooms_error(server, data, streams, m, n - 1);
    }
}

/// Whether each of the channels is among those of a server.
pub open spec fn all_known(channels: Seq<JsonView>, ids: Seq<Seq<char>>) -> bool {
    forall|i: int| 0 <= i < ids.len() ==> first_where(channels, has_id(#[trigger] ids[i])) is Some
}

/// The targets of a server: the streams in its configured channels, then those channels that
/// people are in while nobody streams there. Anything that is missing is an error, so that an
/// incomplete answer is never taken for an end.
pub open spec fn guild_result(server: ServerView, data: JsonView) -> Result<
    Seq<TargetView>,
    DiscordError,
> {
    if list_in(member(data, "members"@)) is None {
        Err(DiscordError::MissingMembers)
    } else if list_in(member(data, "channels"@)) is None {
        Err(DiscordError::MissingChannels)
    } else if !all_known(items_in(data, "channels"@), server.voice_channel_ids) {
        Err(DiscordError::InaccessibleChannel)
    } else if list_in(member(data, "voice_states"@)) is None {
        Err(DiscordError::MissingStates)
    } else {
        match streams_of(
            server,
            data,
            items_in(data, "members"@),
            items_in(data, "voice_states"@),
        ) {
            Err(e) => Err(e),
            Ok(streams) => match rooms_of(
                server,
                data,
                streams,
                server.voice_channel_ids.len() as int,
            ) {
                Err(e) => Err(e),
                Ok(rooms) => Ok(streams + rooms),
            },
        }
    }
}

fn has_stream(targets: &Vec<Target>, count: usize, channel: &str) -> (r: bool)
    requires
        count <= targets.len(),
    ensures
        r == streamed_in(targets.deep_view().take(count as int), channel@),
{
    let ghost shown = targets.deep_view().take(count as int);
    for i in 0..count
        invariant
            count <= targets.len(),
            shown == targets.deep_view().take(count as int),
            forall|j: int| 0 <= j < i ==> (#[trigger] shown[j]).1.channel_id != Some(channel@),
    {
        if let Some(id) = &targets[i].1.channel_id {
            if same(id.as_str(), channel) {
                assert(shown[i as int].1.channel_id == Some(channel@));
                return true;
            }
        }
    }
    false
}

fn occupied_room(server: &Server, data: &Json, channel: &str, people: Vec<Occupant>) -> (r: Target)
    ensures
        r.deep_view() == occupied(server@, data@, channel@, people.deep_view()),
{
    let ghost shown = people.deep_view();
    let mut names: Vec<String> = Vec::new();
    let mut avatars: Vec<Avatar> = Vec::new();
    for i in 0..people.len()
        invariant
            shown == people.deep_view(),
            names.deep_view() == shown.take(i as int).map_values(|p: OccupantView| p.avatar.name),
            avatars.deep_view() == shown.take(i as int).map_values(|p: OccupantView| p.avatar),
    {
        let ghost said = names.deep_view();
        let ghost held = avatars.deep_view();
        names.push(people[i].avatar.name.clone());
        avatars.push(people[i].avatar.clone());
        proof {
            let p = shown[i as int];
            assert(names.deep_view() =~= said.push(p.avatar.name));
            assert(avatars.deep_view() =~= held.push(p.avatar));
            assert(shown.take(i + 1).map_values(|p: OccupantView| p.avatar.name) =~= said.push(
                p.avatar.name,
            ));
            assert(shown.take(i + 1).map_values(|p: OccupantView| p.avatar) =~= held.push(
                p.avatar,
            ));
        }
    }
    assert(shown.take(shown.len() as int) =~= shown);
    let mut id = "voice-".to_owned();
    id.append(channel);
    let context = StreamContext {
        voice_members: names,
        avatars,
        channel_name: name_channel(data, channel),
        participants: people.len(),
        activities: Vec::new(),
    };
    assert(context@.activities =~= Seq::<ActivityView>::empty());
    let streamer = Streamer {
        guild_id: server.guild_id.clone(),
        user_id: id.clone(),
        display_name: name_channel(data, channel),
        voice_channel_ids: clone_texts(&server.voice_channel_ids),
        default_title: server.default_title.clone(),
        announcement_channel_id: clone_text(&server.announcement_channel_id),
        screenshots: server.screenshots,
    };
    let voice = Voice {
        context: Some(context),
        channel_id: Some(channel.to_owned()),
        session_id: id,
        self_stream: false,
    };
    (streamer, voice)
}

/// The targets of a configured server, from what Discord says of it.
pub fn parse_guild(server: &Server, data: &Json) -> (r: Result<Vec<Target>, DiscordError>)
    ensures
        match r {
            Ok(found) => guild_result(server@, data@) == Ok::<Seq<TargetView>, DiscordError>(
                found.deep_view(),
            ),
            Err(e) => guild_result(server@, data@) == Err::<Seq<TargetView>, DiscordError>(e),
        },
{
    let ids = &server.voice_channel_ids;
    let members = match data.get("members").as_list() {
        Some(list) => list,
        None => return Err(DiscordError::MissingMembers),
    };
    let channels = match data.get("channels").as_list() {
        Some(list) => list,
        None => return Err(DiscordError::MissingChannels),
    };
    let ghost wanted = server@.voice_channel_ids;
    let ghost known = views(channels@);
    for i in 0..ids.len()
        invariant
            ids == &server.voice_channel_ids,
            wanted == server@.voice_channel_ids,
            known == views(channels@),
            list_in(member(data@, "members"@)) is Some,
            list_in(member(data@, "channels"@)) == Some(known),
            forall|j: int|
                0 <= j < i ==> first_where(known, has_id(#[trigger] wanted[j])) is Some,
    {
        if find_id(channels, ids[i].as_str()).is_none() {
            assert(first_where(known, has_id(wanted[i as int])) is None);
            return Err(DiscordError::InaccessibleChannel);
        }
    }
    let states = match data.get("voice_states").as_list() {
        Some(list) => list,
        None => return Err(DiscordError::MissingStates),
    };
    let mut list = match find_streams(server, data, members, states) {
        Ok(list) => list,
        Err(e) => return Err(e),
    };
    let ghost streams = list.deep_view();
    let count = list.len();
    assert(streams + Seq::<TargetView>::empty() =~= streams);
    for i in 0..ids.len()
        invariant
            ids == &server.voice_channel_ids,
            wanted == server@.voice_channel_ids,
            list_in(member(data@, "members"@)) == Some(views(members@)),
            list_in(member(data@, "voice_states"@)) == Some(views(states@)),
            list_in(member(data@, "channels"@)) is Some,
            all_known(items_in(data@, "channels"@), wanted),
            streams_of(server@, data@, views(members@), views(states@)) == Ok::<
                Seq<TargetView>,
                DiscordError,
            >(streams),
            count == streams.len(),
            count <= list.len(),
            rooms_of(server@, data@, streams, i as int) is Ok,
            list.deep_view() == streams + rooms_of(server@, data@, streams, i as int)->Ok_0,
    {
        let ghost held = list.deep_view();
        let channel = ids[i].as_str();
        assert(held.take(count as int) =~= streams);
        if !is_repeated(ids, i) && !has_stream(&list, count, channel) {
            match find_occupants(server.guild_id.as_str(), members, states, channel) {
                Err(e) => {
                    proof {
                        lemma_rooms_error(server@, data@, streams, i + 1, wanted.len() as int);
                    }
                    return Err(e);
                },
                Ok(people) => if people.len() > 0 {
                    let room = occupied_room(server, data, channel, people);
                    list.push(room);
                    assert(list.deep_view() =~= held.push(room.deep_view()));
                },
            }
        }
    }
    Ok(list)
}

fn is_repeated(channels: &Vec<String>, n: usize) -> (r: bool)
    requires
        n < channels.len(),
    ensures
        r == repeated(channels.deep_view(), n as int),
{
    let ghost shown = channels.deep_view();
    for i in 0..n
        invariant
            n < channels.len(),
            shown == channels.deep_view(),
            forall|j: int| 0 <= j < i ==> #[trigger] shown[j] != shown[n as int],
    {
        if same(channels[i].as_str(), channels[n].as_str()) {
            assert(shown.take(n as int)[i as int] == shown[n as int]);
            return true;
        }
    }
    assert(!shown.take(n as int).contains(shown[n as int]));
    false
}

/// People in strictly ascending order of their IDs.
pub open spec fn ascending(list: Seq<OccupantView>) -> bool {
    forall|i: int, j: int|
        0 <= i < j < list.len() ==> precedes((#[trigger] list[i]).id, (#[trigger] list[j]).id)
}

/// Whether a list of people includes this ID.
pub open spec fn includes(list: Seq<OccupantView>, id: Seq<char>) -> bool {
    exists|i: int| 0 <= i < list.len() && (#[trigger] list[i]).id == id
}

/// Seating a person keeps the order and adds nobody else.
proof fn lemma_seated(list: Seq<OccupantView>, person: OccupantView)
    requires
        ascending(list),
    ensures
        ascending(seated(list, person)),
        forall|id: Seq<char>|
            #[trigger] includes(seated(list, person), id) <==> (includes(list, id) || id
                == person.id),
    decreases list.len(),
{
    let out = seated(list, person);
    if list.len() == 0 || precedes(list.last().id, person.id) {
        assert forall|i: int, j: int| 0 <= i < j < out.len() implies precedes(
            (#[trigger] out[i]).id,
            (#[trigger] out[j]).id,
        ) by {
            if j < list.len() {
                assert(precedes(list[i].id, list[j].id));
            } else if i < list.len() - 1 {
                assert(precedes(list[i].id, list[list.len() - 1].id));
                lemma_precedes_transitive(list[i].id, list.last().id, person.id);
            }
        }
        assert forall|id: Seq<char>| #[trigger] includes(out, id) <==> (includes(list, id) || id
            == person.id) by {
            if includes(out, id) {
                let i = choose|i: int| 0 <= i < out.len() && (#[trigger] out[i]).id == id;
                if i < list.len() {
                    assert(list[i].id == id);
                }
            }
            if includes(list, id) {
                let i = choose|i: int| 0 <= i < list.len() && (#[trigger] list[i]).id == id;
                assert(out[i].id == id);
            }
            if id == person.id {
                assert(out[list.len() as int].id == id);
            }
        }
    } else if list.last().id == person.id {
        assert(list[list.len() - 1].id == person.id);
    } else {
        let front = list.drop_last();
        assert forall|i: int, j: int| 0 <= i < j < front.len() implies precedes(
            (#[trigger] front[i]).id,
            (#[trigger] front[j]).id,
        ) by {
            assert(precedes(list[i].id, list[j].id));
        }
        lemma_seated(front, person);
        let inner = seated(front, person);
        lemma_precedes_total(list.last().id, person.id);
        assert forall|i: int, j: int| 0 <= i < j < out.len() implies precedes(
            (#[trigger] out[i]).id,
            (#[trigger] out[j]).id,
        ) by {
            if j < inner.len() {
                assert(precedes(inner[i].id, inner[j].id));
            } else {
                let id = inner[i].id;
                assert(includes(inner, id));
                if id != person.id {
                    let k = choose|k: int| 0 <= k < front.len() && (#[trigger] front[k]).id == id;
                    assert(precedes(list[k].id, list[list.len() - 1].id));
                }
            }
        }
        assert forall|id: Seq<char>| #[trigger] includes(out, id) <==> (includes(list, id) || id
            == person.id) by {
            assert(includes(inner, id) <==> (includes(front, id) || id == person.id));
            if includes(out, id) {
                let i = choose|i: int| 0 <= i < out.len() && (#[trigger] out[i]).id == id;
                if i < inner.len() {
                    assert(inner[i].id == id);
                    if includes(front, id) {
                        let k = choose|k: int|
                            0 <= k < front.len() && (#[trigger] front[k]).id == id;
                        assert(list[k].id == id);
                    }
                } else {
                    assert(list[list.len() - 1].id == id);
                }
            }
            if includes(inner, id) {
                let k = choose|k: int| 0 <= k < inner.len() && (#[trigger] inner[k]).id == id;
                assert(out[k].id == id);
            }
            if includes(list, id) {
                let k = choose|k: int| 0 <= k < list.len() && (#[trigger] list[k]).id == id;
                if k < front.len() {
                    assert(front[k].id == id);
                } else {
                    assert(out[out.len() - 1].id == id);
                }
            }
        }
    }
}

/// Whether a voice state shows that the person with this ID is in a channel.
pub open spec fn shows_person(
    members: Seq<JsonView>,
    state: JsonView,
    channel: Seq<char>,
    id: Seq<char>,
) -> bool {
    &&& member(state, "channel_id"@) == JsonView::Text(channel)
    &&& person_of(members, state) matches Ok(Some((found, _))) && found == id
}

/// Whether one of the voice states shows that the person with this ID is in a channel.
pub open spec fn is_inside(
    members: Seq<JsonView>,
    states: Seq<JsonView>,
    channel: Seq<char>,
    id: Seq<char>,
) -> bool {
    exists|i: int|
        0 <= i < states.len() && shows_person(members, #[trigger] states[i], channel, id)
}

/// The people in a channel are exactly those whom a voice state shows there, each once, in an
/// order that depends on their IDs alone.
pub proof fn law_occupants_are_the_people_inside(
    guild: Seq<char>,
    members: Seq<JsonView>,
    states: Seq<JsonView>,
    channel: Seq<char>,
)
    requires
        occupants_of(guild, members, states, channel) is Ok,
    ensures
        ascending(occupants_of(guild, members, states, channel)->Ok_0),
        forall|id: Seq<char>|
            #[trigger] includes(occupants_of(guild, members, states, channel)->Ok_0, id)
                <==> is_inside(members, states, channel, id),
    decreases states.len(),
{
    if states.len() > 0 {
        let front = states.drop_last();
        let last = states.last();
        law_occupants_are_the_people_inside(guild, members, front, channel);
        let before = occupants_of(guild, members, front, channel)->Ok_0;
        let after = occupants_of(guild, members, states, channel)->Ok_0;
        let here = member(last, "channel_id"@) == JsonView::Text(channel);
        let who = person_of(members, last);
        if here && who is Ok && who->Ok_0 is Some {
            let (found, person) = who->Ok_0->0;
            lemma_seated(
                before,
                OccupantView { id: found, avatar: member_result(person, guild)->Ok_0 },
            );
        }
        assert forall|id: Seq<char>| #[trigger] includes(after, id) <==> is_inside(
            members,
            states,
            channel,
            id,
        ) by {
            assert(includes(before, id) <==> is_inside(members, front, channel, id));
            if is_inside(members, front, channel, id) {
                let i = choose|i: int|
                    0 <= i < front.len() && shows_person(members, #[trigger] front[i], channel, id);
                assert(shows_person(members, states[i], channel, id));
            }
            if is_inside(members, states, channel, id) {
                let i = choose|i: int|
                    0 <= i < states.len() && shows_person(
                        members,
                        #[trigger] states[i],
                        channel,
                        id,
                    );
                if i < front.len() {
                    assert(shows_person(members, front[i], channel, id));
                }
            }
            if shows_person(members, last, channel, id) {
                assert(shows_person(members, states[states.len() - 1], channel, id));
            }
        }
    }
}

/// What holds of every target that is found on a server: it belongs to that server and to one
/// of the configured channels; a channel stands for itself only where people are in it, and
/// then it lists them.
pub open spec fn sound_target(server: ServerView, target: TargetView) -> bool {
    &&& target.0.guild_id == server.guild_id
    &&& allowed(server.voice_channel_ids, target.1.channel_id)
    &&& target.1.self_stream ==> (target.1.context is Some <==> server.use_activity)
    &&& !target.1.self_stream ==> {
        &&& target.0.user_id == room_id(target.1.channel_id->0)
        &&& target.1.context is Some
        &&& target.1.context->0.voice_members.len() > 0
        &&& target.1.context->0.participants == target.1.context->0.voice_members.len()
    }
}

pub open spec fn all_sound(server: ServerView, list: Seq<TargetView>) -> bool {
    forall|i: int| 0 <= i < list.len() ==> sound_target(server, #[trigger] list[i])
}

proof fn lemma_streams_sound(
    server: ServerView,
    data: JsonView,
    members: Seq<JsonView>,
    states: Seq<JsonView>,
)
    requires
        streams_of(server, data, members, states) is Ok,
    ensures
        all_sound(server, streams_of(server, data, members, states)->Ok_0),
        forall|i: int|
            0 <= i < streams_of(server, data, members, states)->Ok_0.len() ==> (
            #[trigger] streams_of(server, data, members, states)->Ok_0[i]).1.self_stream,
    decreases states.len(),
{
    if states.len() > 0 {
        lemma_streams_sound(server, data, members, states.drop_last());
    }
}

proof fn lemma_rooms_sound(server: ServerView, data: JsonView, streams: Seq<TargetView>, n: int)
    requires
        0 <= n <= server.voice_channel_ids.len(),
        rooms_of(server, data, streams, n) is Ok,
    ensures
        all_sound(server, rooms_of(server, data, streams, n)->Ok_0),
        forall|i: int|
            0 <= i < rooms_of(server, data, streams, n)->Ok_0.len() ==> {
                let room = (#[trigger] rooms_of(server, data, streams, n)->Ok_0[i]).1;
                &&& !room.self_stream && !streamed_in(streams, room.channel_id->0)
                &&& room.channel_id is Some
                &&& server.voice_channel_ids.take(n).contains(room.channel_id->0)
            },
        apart(rooms_of(server, data, streams, n)->Ok_0),
    decreases n,
{
    if n > 0 {
        lemma_rooms_sound(server, data, streams, n - 1);
        let ids = server.voice_channel_ids;
        let before = rooms_of(server, data, streams, n - 1)->Ok_0;
        let after = rooms_of(server, data, streams, n)->Ok_0;
        assert(ids.contains(ids[n - 1]));
        assert(ids.take(n)[n - 1] == ids[n - 1]);
        assert forall|i: int| 0 <= i < after.len() implies ids.take(n).contains(
            (#[trigger] after[i]).1.channel_id->0,
        ) by {
            if i < before.len() {
                let id = before[i].1.channel_id->0;
                let known = ids.take(n - 1);
                let k = choose|k: int| 0 <= k < known.len() && known[k] == id;
                assert(ids.take(n)[k] == id);
            }
        }
        assert forall|i: int, j: int| 0 <= i < j < after.len() implies (
        #[trigger] after[i]).1.channel_id != (#[trigger] after[j]).1.channel_id by {
            assert(after[i] == before[i]);
            if j < before.len() {
                assert(after[j] == before[j]);
            }
        }
    }
}

/// Whether no two targets are of the same channel.
pub open spec fn apart(list: Seq<TargetView>) -> bool {
    forall|i: int, j: int|
        0 <= i < j < list.len() ==> (#[trigger] list[i]).1.channel_id != (
        #[trigger] list[j]).1.channel_id
}

/// Every target of a server is sound, no channel that somebody streams in is a target of its
/// own, and no channel is one twice.
pub proof fn law_targets_are_sound(server: ServerView, data: JsonView)
    requires
        guild_result(server, data) is Ok,
    ensures
        all_sound(server, guild_result(server, data)->Ok_0),
        forall|i: int, j: int|
            0 <= i < guild_result(server, data)->Ok_0.len() && 0 <= j < guild_result(
                server,
                data,
            )->Ok_0.len() && (#[trigger] guild_result(server, data)->Ok_0[i]).1.self_stream
                && !(#[trigger] guild_result(server, data)->Ok_0[j]).1.self_stream
                ==> guild_result(server, data)->Ok_0[i].1.channel_id != guild_result(
                server,
                data,
            )->Ok_0[j].1.channel_id,
        forall|i: int, j: int|
            0 <= i < j < guild_result(server, data)->Ok_0.len() && !(#[trigger] guild_result(
                server,
                data,
            )->Ok_0[i]).1.self_stream && !(#[trigger] guild_result(
                server,
                data,
            )->Ok_0[j]).1.self_stream ==> guild_result(server, data)->Ok_0[i].1.channel_id
                != guild_result(server, data)->Ok_0[j].1.channel_id,
{
    let members = items_in(data, "members"@);
    let states = items_in(data, "voice_states"@);
    let streams = streams_of(server, data, members, states)->Ok_0;
    let n = server.voice_channel_ids.len() as int;
    let rooms = rooms_of(server, data, streams, n)->Ok_0;
    lemma_streams_sound(server, data, members, states);
    lemma_rooms_sound(server, data, streams, n);
    let list = guild_result(server, data)->Ok_0;
    assert(list == streams + rooms);
    assert forall|i: int, j: int|
        0 <= i < list.len() && 0 <= j < list.len() && (#[trigger] list[i]).1.self_stream && !(
        #[trigger] list[j]).1.self_stream implies list[i].1.channel_id != list[j].1.channel_id by {
        if i >= streams.len() {
            assert(list[i] == rooms[i - streams.len()]);
        }
        if j < streams.len() {
            assert(list[j] == streams[j]);
        } else {
            assert(list[j] == rooms[j - streams.len()]);
            assert(list[i] == streams[i]);
        }
    }
    assert forall|i: int, j: int|
        0 <= i < j < list.len() && !(#[trigger] list[i]).1.self_stream && !(
        #[trigger] list[j]).1.self_stream implies list[i].1.channel_id != list[j].1.channel_id by {
        if i < streams.len() {
            assert(list[i] == streams[i]);
        } else {
            assert(list[i] == rooms[i - streams.len()]);
            assert(list[j] == rooms[j - streams.len()]);
        }
    }
}

} // verus!
