//! Passes on the last message of a shared channel while people are in the server's calls.
use vstd::prelude::*;
use vstd::string::*;
use vstd::utf8::encode_utf8;

use crate::activity::{is_snowflake, snowflake};
use crate::avatars::{global_name, name_of_user, AvatarView};
use crate::config::{target_key, Server, ServerView};
use crate::digest::{sha256, sha256_of};
use crate::discord::{clean, cleaned, clone_text};
use crate::engine::{
    advance, delivery, engine_message, follows_save, is_quiet, is_unsaved, lacks_save,
    law_changes_are_saved_at_once,
    law_delivery_stays_sound,
    law_dry_delivery_does_nothing, law_intent_is_saved_before_publication, stage_holds,
    with_pending, Action, ActionView, App, EngineError, Entry, EntryView, Input, InputView, Pending,
    PendingView, Stage, State,
};
use crate::http::{failure, failure_text, is_success, succeeded};
use crate::json::{json_text, list_in, member, text_in, unsigned_in, views, Json, JsonView};
use crate::keys::{fresh_key, is_uuid};
use crate::link_titles::{clean_title, titled};
use crate::notation::{law_text_tells_values_apart, well_written};
use crate::number::{hex_text, is_digest, lemma_digest, lower_hex, parse_u64, parsed};
use crate::table::Table;
use crate::text::{normalize, normalized, replace, replaced, same};
use crate::time::Timestamp;
use crate::visit::saved_after;

verus! {

/// What tells two versions of a channel's last message apart: which message it is, and when
/// it was edited. What Discord adds to a message later is no part of it.
pub open spec fn identity(message: Option<JsonView>) -> JsonView {
    match message {
        Some(m) => JsonView::List(seq![member(m, "id"@), member(m, "edited_timestamp"@)]),
        None => JsonView::Null,
    }
}

/// The identity of a version of a channel's last message.
pub open spec fn revision_of(message: Option<JsonView>) -> Seq<char> {
    lower_hex(sha256_of(encode_utf8(json_text(identity(message)))))
}

/// The view of an optional message.
pub open spec fn message_view(message: Option<&Json>) -> Option<JsonView> {
    match message {
        Some(m) => Some(m@),
        None => None,
    }
}

/// What tells two versions of a channel's last message apart, as JSON text.
pub fn identity_text(message: Option<&Json>) -> (r: String)
    ensures
        r@ == json_text(identity(message_view(message))),
{
    match message {
        Some(m) => {
            let mut pair: Vec<Json> = Vec::new();
            pair.push(m.get("id").clone());
            pair.push(m.get("edited_timestamp").clone());
            assert(views(pair@) =~= identity(Some(m@))->List_0);
            Json::list(pair).to_text()
        },
        None => Json::Null.to_text(),
    }
}

pub fn revision(message: Option<&Json>) -> (r: String)
    ensures
        r@ == revision_of(message_view(message)),
        is_digest(r@),
{
    let text = identity_text(message);
    let digest = sha256(text.as_str().as_bytes());
    proof {
        lemma_digest(digest@);
    }
    hex_text(&digest)
}

/// A part of a text: a link, or what stands between links.
pub struct Span {
    pub text: String,
    pub link: bool,
}

pub struct SpanView {
    pub text: Seq<char>,
    pub link: bool,
}

impl View for Span {
    type V = SpanView;

    open spec fn view(&self) -> SpanView {
        SpanView { text: self.text@, link: self.link }
    }
}

impl DeepView for Span {
    type V = SpanView;

    open spec fn deep_view(&self) -> SpanView {
        self@
    }
}

/// What kind of links is looked for.
#[derive(Clone, Copy, Debug, PartialEq, Eq, Structural)]
pub enum Sought {
    Url,
    Email,
}

/// The links of a kind in a text, and what stands between them.
pub uninterp spec fn spans_in(text: Seq<char>, kind: Sought) -> Seq<SpanView>;

/// `linkify::LinkFinder::spans`, for links of one kind: those links and what stands between
/// them, in order. They depend on the text and the kind alone.
#[verifier::external_body]
fn find_spans(text: &str, kind: Sought) -> (r: Vec<Span>)
    ensures
        r.deep_view() == spans_in(text@, kind),
{
    let mut finder = linkify::LinkFinder::new();
    finder.kinds(&[match kind {
        Sought::Url => linkify::LinkKind::Url,
        Sought::Email => linkify::LinkKind::Email,
    }]);
    finder
        .spans(text)
        .map(|span| Span { text: span.as_str().to_owned(), link: span.kind().is_some() })
        .collect()
}

/// The URLs of a text and what stands between them.
pub open spec fn spans_of(text: Seq<char>) -> Seq<SpanView> {
    spans_in(text, Sought::Url)
}

/// A link to pass on, with its title where one is known.
pub struct Link {
    pub url: String,
    pub title: Option<String>,
}

pub struct LinkView {
    pub url: Seq<char>,
    pub title: Option<Seq<char>>,
}

impl View for Link {
    type V = LinkView;

    open spec fn view(&self) -> LinkView {
        LinkView { url: self.url@, title: self.title.deep_view() }
    }
}

impl DeepView for Link {
    type V = LinkView;

    open spec fn deep_view(&self) -> LinkView {
        self@
    }
}

/// How many links are passed on at most.
pub const LINKS: usize = 2;

/// The longest link that is passed on, in bytes.
pub const LINK_BYTES: usize = 2048;

/// A link that is not too long.
pub open spec fn short_link(url: Seq<char>) -> bool {
    encode_utf8(url).len() <= LINK_BYTES
}

/// Whether a link is among others.
pub open spec fn has_link(links: Seq<LinkView>, url: Seq<char>) -> bool {
    exists|i: int| 0 <= i < links.len() && (#[trigger] links[i]).url == url
}

/// What stands between the links of a text.
pub open spec fn plain_of(spans: Seq<SpanView>) -> Seq<char>
    decreases spans.len(),
{
    if spans.len() == 0 {
        Seq::empty()
    } else if spans.last().link {
        plain_of(spans.drop_last())
    } else {
        plain_of(spans.drop_last()) + spans.last().text
    }
}

/// The links of a text that are passed on: the first few that are not too long, each once.
pub open spec fn links_of(spans: Seq<SpanView>) -> Seq<LinkView>
    decreases spans.len(),
{
    if spans.len() == 0 {
        Seq::empty()
    } else {
        let front = links_of(spans.drop_last());
        let last = spans.last();
        if last.link && front.len() < LINKS && short_link(last.text) && !has_link(
            front,
            last.text,
        ) {
            front.push(LinkView { url: last.text, title: None })
        } else {
            front
        }
    }
}

fn includes_link(links: &Vec<Link>, url: &str) -> (r: bool)
    ensures
        r == has_link(links.deep_view(), url@),
{
    let ghost shown = links.deep_view();
    for i in 0..links.len()
        invariant
            shown == links.deep_view(),
            forall|j: int| 0 <= j < i ==> (#[trigger] shown[j]).url != url@,
    {
        if same(links[i].url.as_str(), url) {
            assert(shown[i as int].url == url@);
            return true;
        }
    }
    false
}

/// A text with the mention of a person given a name.
pub open spec fn named_mention(text: Seq<char>, user: JsonView) -> Seq<char> {
    match text_in(member(user, "id"@)) {
        None => text,
        Some(id) => {
            let name = global_name(user, "参加者"@);
            replaced(
                replaced(text, "<@"@ + id + ">"@, name),
                "<@!"@ + id + ">"@,
                name,
            )
        },
    }
}

/// A text with the mentions of people given their names.
pub open spec fn named_mentions(text: Seq<char>, users: Seq<JsonView>) -> Seq<char>
    decreases users.len(),
{
    if users.len() == 0 {
        text
    } else {
        named_mention(named_mentions(text, users.drop_last()), users.last())
    }
}

fn name_mention(text: String, user: &Json) -> (r: String)
    ensures
        r@ == named_mention(text@, user@),
{
    match user.get("id").as_text() {
        None => text,
        Some(id) => {
            let name = name_of_user(user, "参加者");
            let mut short = "<@".to_owned();
            short.append(id);
            short.append(">");
            let mut long = "<@!".to_owned();
            long.append(id);
            long.append(">");
            proof {
                reveal_strlit("<@");
                reveal_strlit("<@!");
            }
            let once = replace(text.as_str(), short.as_str(), name);
            replace(once.as_str(), long.as_str(), name)
        },
    }
}

/// The link to an attachment, called by its file's name.
pub open spec fn attached(attachment: JsonView) -> Option<LinkView> {
    match text_in(member(attachment, "url"@)) {
        None => None,
        Some(url) => if short_link(url) {
            Some(
                LinkView {
                    url,
                    title: match text_in(member(attachment, "filename"@)) {
                        Some(name) => titled(name),
                        None => None,
                    },
                },
            )
        } else {
            None
        },
    }
}

fn attach(attachment: &Json) -> (r: Option<Link>)
    ensures
        r.deep_view() == attached(attachment@),
{
    match attachment.get("url").as_text() {
        None => None,
        Some(url) => if url.as_bytes().len() <= LINK_BYTES {
            let title = match attachment.get("filename").as_text() {
                Some(name) => clean_title(name),
                None => None,
            };
            Some(Link { url: url.to_owned(), title })
        } else {
            None
        },
    }
}

/// Links, and behind them those to attachments, as far as there is room.
pub open spec fn with_attachments(links: Seq<LinkView>, attachments: Seq<JsonView>) -> Seq<LinkView>
    decreases attachments.len(),
{
    if attachments.len() == 0 {
        links
    } else {
        let front = with_attachments(links, attachments.drop_last());
        match attached(attachments.last()) {
            Some(link) => if front.len() < LINKS {
                front.push(link)
            } else {
                front
            },
            None => front,
        }
    }
}

/// A test for the preview of a link.
pub open spec fn previews(url: Seq<char>) -> spec_fn(JsonView) -> bool {
    |embed: JsonView| member(embed, "url"@) == JsonView::Text(url)
}

/// The title that Discord's preview gives a link.
pub open spec fn preview_title(embeds: Seq<JsonView>, url: Seq<char>) -> Option<Seq<char>> {
    match crate::activity::first_where(embeds, previews(url)) {
        None => None,
        Some(embed) => match text_in(member(embed, "title"@)) {
            None => None,
            Some(title) => titled(title),
        },
    }
}

fn find_preview(embeds: &Vec<Json>, url: &str) -> (r: Option<String>)
    ensures
        r.deep_view() == preview_title(views(embeds@), url@),
{
    let ghost shown = views(embeds@);
    let mut i: usize = 0;
    assert(shown.skip(0) =~= shown);
    while i < embeds.len()
        invariant
            i <= embeds.len(),
            shown == views(embeds@),
            crate::activity::first_where(shown, previews(url@)) == crate::activity::first_where(
                shown.skip(i as int),
                previews(url@),
            ),
        decreases embeds.len() - i,
    {
        assert(shown.skip(i as int)[0] == embeds@[i as int]@);
        if embeds[i].get("url").is_text(url) {
            return match embeds[i].get("title").as_text() {
                Some(title) => clean_title(title),
                None => None,
            };
        }
        assert(shown.skip(i as int).drop_first() =~= shown.skip(i + 1));
        i = i + 1;
    }
    None
}

/// A link with the title that it has, else with that of its preview.
pub open spec fn previewed(embeds: Seq<JsonView>, link: LinkView) -> LinkView {
    LinkView {
        url: link.url,
        title: if link.title is Some {
            link.title
        } else {
            preview_title(embeds, link.url)
        },
    }
}

/// A message to pass on: its text, and its links.
pub struct Draft {
    pub text: String,
    pub links: Vec<Link>,
}

pub struct DraftView {
    pub text: Seq<char>,
    pub links: Seq<LinkView>,
}

impl View for Draft {
    type V = DraftView;

    open spec fn view(&self) -> DraftView {
        DraftView { text: self.text@, links: self.links.deep_view() }
    }
}

impl DeepView for Draft {
    type V = DraftView;

    open spec fn deep_view(&self) -> DraftView {
        self@
    }
}

/// Whether a message is something that a person wrote: a message or a reply.
pub open spec fn is_written(message: JsonView) -> bool {
    match unsigned_in(member(message, "type"@)) {
        Some(kind) => kind == 0 || kind == 19,
        None => true,
    }
}

/// The items of a list; none where there is no list.
pub open spec fn items_of(value: JsonView) -> Seq<JsonView> {
    match list_in(value) {
        Some(items) => items,
        None => Seq::empty(),
    }
}

/// What a post says of a message before its links.
pub open spec fn topic(author: Seq<char>, plain: Seq<char>) -> Seq<char> {
    "💬 通話中の話題\n"@ + cleaned(author, 45) + "："@ + (if plain.len() == 0 {
        Seq::empty()
    } else if plain.len() > 180 {
        cleaned(plain, 180) + "…"@
    } else {
        cleaned(plain, 180)
    })
}

/// The text of a message without its links, with names for mentions, in one line.
pub open spec fn plain_text(message: JsonView, spans: Seq<SpanView>) -> Seq<char> {
    normalized(named_mentions(plain_of(spans), items_of(member(message, "mentions"@))))
}

/// The links of a message, with those to its attachments.
pub open spec fn link_list(message: JsonView, spans: Seq<SpanView>) -> Seq<LinkView> {
    with_attachments(links_of(spans), items_of(member(message, "attachments"@)))
}

/// What is passed on of a message, given the parts of its content; nothing where it says
/// nothing.
pub open spec fn drafted(message: JsonView, spans: Seq<SpanView>) -> Option<DraftView> {
    let plain = plain_text(message, spans);
    let links = link_list(message, spans);
    if !is_written(message) || plain.len() == 0 && links.len() == 0 {
        None
    } else {
        Some(
            DraftView {
                text: topic(global_name(member(message, "author"@), "参加者"@), plain),
                links: links.map_values(
                    |link: LinkView| previewed(items_of(member(message, "embeds"@)), link),
                ),
            },
        )
    }
}

/// What a message says.
pub open spec fn content_of(message: JsonView) -> Seq<char> {
    match text_in(member(message, "content"@)) {
        Some(text) => text,
        None => Seq::empty(),
    }
}

fn write_plain(message: &Json, spans: &Vec<Span>) -> (r: String)
    ensures
        r@ == plain_text(message@, spans.deep_view()),
{
    let ghost shown = spans.deep_view();
    let mut plain = String::new();
    assert(shown.take(0) =~= Seq::<SpanView>::empty());
    assert(plain@ =~= plain_of(shown.take(0)));
    for i in 0..spans.len()
        invariant
            shown == spans.deep_view(),
            plain@ == plain_of(shown.take(i as int)),
    {
        assert(shown.take(i + 1).drop_last() =~= shown.take(i as int));
        if !spans[i].link {
            plain.append(spans[i].text.as_str());
        }
    }
    assert(shown.take(shown.len() as int) =~= shown);
    if let Some(mentions) = message.get("mentions").as_list() {
        let ghost users = views(mentions@);
        let ghost bare = plain@;
        assert(users.take(0) =~= Seq::<JsonView>::empty());
        for i in 0..mentions.len()
            invariant
                users == views(mentions@),
                plain@ == named_mentions(bare, users.take(i as int)),
        {
            assert(users.take(i + 1).drop_last() =~= users.take(i as int));
            assert(users.take(i + 1).last() == mentions@[i as int]@);
            plain = name_mention(plain, &mentions[i]);
        }
        assert(users.take(users.len() as int) =~= users);
    }
    normalize(plain.as_str())
}

fn write_links(message: &Json, spans: &Vec<Span>) -> (r: Vec<Link>)
    ensures
        r.deep_view() == link_list(message@, spans.deep_view()),
{
    let ghost shown = spans.deep_view();
    let mut links: Vec<Link> = Vec::new();
    assert(shown.take(0) =~= Seq::<SpanView>::empty());
    assert(links.deep_view() =~= links_of(shown.take(0)));
    for i in 0..spans.len()
        invariant
            shown == spans.deep_view(),
            links.deep_view() == links_of(shown.take(i as int)),
    {
        let ghost held = links.deep_view();
        assert(shown.take(i + 1).drop_last() =~= shown.take(i as int));
        let url = spans[i].text.as_str();
        if spans[i].link && links.len() < LINKS && url.as_bytes().len() <= LINK_BYTES
            && !includes_link(&links, url) {
            let link = Link { url: url.to_owned(), title: None };
            links.push(link);
            assert(links.deep_view() =~= held.push(link@));
        }
    }
    assert(shown.take(shown.len() as int) =~= shown);
    if let Some(attachments) = message.get("attachments").as_list() {
        let ghost files = views(attachments@);
        let ghost bare = links.deep_view();
        assert(files.take(0) =~= Seq::<JsonView>::empty());
        for i in 0..attachments.len()
            invariant
                files == views(attachments@),
                links.deep_view() == with_attachments(bare, files.take(i as int)),
        {
            let ghost held = links.deep_view();
            assert(files.take(i + 1).drop_last() =~= files.take(i as int));
            assert(files.take(i + 1).last() == attachments@[i as int]@);
            if let Some(link) = attach(&attachments[i]) {
                if links.len() < LINKS {
                    links.push(link);
                    assert(links.deep_view() =~= held.push(link@));
                }
            }
        }
        assert(files.take(files.len() as int) =~= files);
    }
    links
}

/// What is passed on of a message, given the parts of its content.
pub fn draft_with(message: &Json, spans: &Vec<Span>) -> (r: Option<Draft>)
    ensures
        r.deep_view() == drafted(message@, spans.deep_view()),
{
    if let Some(kind) = message.get("type").as_unsigned() {
        if kind != 0 && kind != 19 {
            return None;
        }
    }
    let plain = write_plain(message, spans);
    let bare = write_links(message, spans);
    let length = plain.as_str().unicode_len();
    assert(bare.deep_view().len() == bare.len());
    if length == 0 && bare.len() == 0 {
        return None;
    }
    let mut text = "💬 通話中の話題\n".to_owned();
    let author = name_of_user(message.get("author"), "参加者");
    text.append(clean(author, 45).as_str());
    text.append("：");
    if length > 0 {
        text.append(clean(plain.as_str(), 180).as_str());
        if length > 180 {
            text.append("…");
        }
    }
    assert(text@ =~= topic(author@, plain@));
    let none: Vec<Json> = Vec::new();
    let embeds = match message.get("embeds").as_list() {
        Some(list) => list,
        None => &none,
    };
    let ghost previews = items_of(member(message@, "embeds"@));
    assert(views(embeds@) =~= previews);
    let ghost shown = bare.deep_view();
    let mut links: Vec<Link> = Vec::new();
    for i in 0..bare.len()
        invariant
            shown == bare.deep_view(),
            views(embeds@) == previews,
            links.deep_view() == shown.take(i as int).map_values(
                |link: LinkView| previewed(previews, link),
            ),
    {
        let ghost held = links.deep_view();
        let title = match &bare[i].title {
            Some(title) => Some(title.clone()),
            None => find_preview(embeds, bare[i].url.as_str()),
        };
        let link = Link { url: bare[i].url.clone(), title };
        assert(link@ == previewed(previews, shown[i as int]));
        links.push(link);
        proof {
            assert(links.deep_view() =~= held.push(link@));
            assert(shown.take(i + 1).map_values(|link: LinkView| previewed(previews, link))
                =~= held.push(link@));
        }
    }
    assert(shown.take(shown.len() as int) =~= shown);
    Some(Draft { text, links })
}

/// What is passed on of a message.
pub fn draft(message: &Json) -> (r: Option<Draft>)
    ensures
        r.deep_view() == drafted(message@, spans_of(content_of(message@))),
{
    let content = match message.get("content").as_text() {
        Some(text) => text.to_owned(),
        None => String::new(),
    };
    assert(content@ =~= content_of(message@));
    let spans = find_spans(content.as_str(), Sought::Url);
    draft_with(message, &spans)
}

/// What a post says of a link.
pub open spec fn link_text(link: LinkView, found: Option<Seq<char>>) -> Seq<char> {
    let title = if link.title is Some {
        link.title
    } else {
        found
    };
    (match title {
        Some(title) => "\n"@ + cleaned(title, 65),
        None => Seq::empty(),
    }) + "\n"@ + link.url
}

/// What a post says of links, given the titles that were found for them.
pub open spec fn links_text(links: Seq<LinkView>, found: Seq<Option<Seq<char>>>) -> Seq<char>
    decreases links.len(),
{
    if links.len() == 0 {
        Seq::empty()
    } else {
        let title = if links.len() <= found.len() {
            found[links.len() - 1]
        } else {
            None
        };
        links_text(links.drop_last(), found) + link_text(links.last(), title)
    }
}

/// A post that passes a message on, given the titles that were found for its links.
pub open spec fn shared_text(draft: DraftView, found: Seq<Option<Seq<char>>>) -> Seq<char> {
    draft.text + links_text(draft.links, found)
}

/// A post that passes a message on. A link without a title is passed on too.
pub fn render(draft: &Draft, found: &Vec<Option<String>>) -> (r: String)
    ensures
        r@ == shared_text(draft@, found.deep_view()),
{
    let ghost links = draft@.links;
    let ghost titles = found.deep_view();
    let mut text = draft.text.clone();
    assert(links.take(0) =~= Seq::<LinkView>::empty());
    assert(text@ =~= draft@.text + links_text(links.take(0), titles));
    for i in 0..draft.links.len()
        invariant
            links == draft@.links,
            titles == found.deep_view(),
            text@ == draft@.text + links_text(links.take(i as int), titles),
    {
        let ghost held = text@;
        let link = &draft.links[i];
        let title = match &link.title {
            Some(title) => Some(title.clone()),
            None => if i < found.len() {
                clone_text(&found[i])
            } else {
                None
            },
        };
        if let Some(title) = title {
            text.append("\n");
            text.append(clean(title.as_str(), 65).as_str());
        }
        text.append("\n");
        text.append(link.url.as_str());
        proof {
            let ghost longer = links.take(i + 1);
            assert(longer.drop_last() =~= links.take(i as int));
            let one = if longer.len() <= titles.len() {
                titles[longer.len() - 1]
            } else {
                None
            };
            assert(text@ =~= held + link_text(link@, one));
            assert(text@ =~= draft@.text + (links_text(links.take(i as int), titles) + link_text(
                link@,
                one,
            )));
        }
    }
    assert(links.take(links.len() as int) =~= links);
    text
}

/// Why sharing stops.
#[derive(Clone, Copy, Debug, PartialEq, Eq, Structural)]
pub enum ShareError {
    Status(u16),
    Response,
    MissingId,
    InvalidId,
    Cursor,
    Engine(EngineError),
}

/// What is said where sharing stops.
pub open spec fn share_message(e: ShareError) -> Seq<char> {
    match e {
        ShareError::Status(status) => failure("Discord shared channel"@, status),
        ShareError::Response => "Invalid shared channel response (details redacted)"@,
        ShareError::MissingId => "Missing shared message ID"@,
        ShareError::InvalidId => "Invalid shared message ID"@,
        ShareError::Cursor => "Invalid shared channel cursor"@,
        ShareError::Engine(e) => engine_message(e),
    }
}

impl ShareError {
    pub fn message(&self) -> (r: String)
        ensures
            r@ == share_message(*self),
    {
        let text = match self {
            ShareError::Status(status) => return failure_text("Discord shared channel", *status),
            ShareError::Response => "Invalid shared channel response (details redacted)",
            ShareError::MissingId => "Missing shared message ID",
            ShareError::InvalidId => "Invalid shared message ID",
            ShareError::Cursor => "Invalid shared channel cursor",
            ShareError::Engine(e) => e.message(),
        };
        text.to_owned()
    }
}

/// A shared channel of a server.
pub struct Shared {
    pub guild: String,
    pub channel: String,
}

pub struct SharedView {
    pub guild: Seq<char>,
    pub channel: Seq<char>,
}

impl View for Shared {
    type V = SharedView;

    open spec fn view(&self) -> SharedView {
        SharedView { guild: self.guild@, channel: self.channel@ }
    }
}

impl DeepView for Shared {
    type V = SharedView;

    open spec fn deep_view(&self) -> SharedView {
        self@
    }
}

/// The name under which a shared channel is remembered.
pub open spec fn shared_name(s: SharedView) -> Seq<char> {
    target_key(s.guild, "share-"@ + s.channel)
}

impl Shared {
    pub fn name(&self) -> (r: String)
        ensures
            r@ == shared_name(self@),
    {
        let mut user = "share-".to_owned();
        user.append(self.channel.as_str());
        crate::config::key_of(self.guild.as_str(), user.as_str())
    }
}

/// The shared channels of those servers that somebody is in a call of, in order.
pub open spec fn shared_channels(servers: Seq<ServerView>, occupied: Set<Seq<char>>) -> Seq<SharedView>
    decreases servers.len(),
{
    if servers.len() == 0 {
        Seq::empty()
    } else {
        let front = shared_channels(servers.drop_last(), occupied);
        let last = servers.last();
        match last.share_channel_id {
            Some(channel) => if occupied.contains(last.guild_id) {
                front.push(SharedView { guild: last.guild_id, channel })
            } else {
                front
            },
            None => front,
        }
    }
}

/// The shared channels to look at.
pub fn share_targets(servers: &Vec<Server>, occupied: &Table<()>) -> (r: Vec<Shared>)
    requires
        occupied.wf(),
    ensures
        r.deep_view() == shared_channels(servers.deep_view(), occupied@.dom()),
{
    let ghost shown = servers.deep_view();
    let mut out: Vec<Shared> = Vec::new();
    assert(shown.take(0) =~= Seq::<ServerView>::empty());
    assert(out.deep_view() =~= Seq::<SharedView>::empty());
    for i in 0..servers.len()
        invariant
            occupied.wf(),
            shown == servers.deep_view(),
            out.deep_view() == shared_channels(shown.take(i as int), occupied@.dom()),
    {
        let ghost held = out.deep_view();
        assert(shown.take(i + 1).drop_last() =~= shown.take(i as int));
        if let Some(channel) = &servers[i].share_channel_id {
            if occupied.get(servers[i].guild_id.as_str()).is_some() {
                let item = Shared { guild: servers[i].guild_id.clone(), channel: channel.clone() };
                out.push(item);
                assert(out.deep_view() =~= held.push(item@));
            }
        }
    }
    assert(shown.take(shown.len() as int) =~= shown);
    out
}

/// Nothing is shared of a server that nobody is in a call of.
pub proof fn law_sharing_needs_occupants(servers: Seq<ServerView>, occupied: Set<Seq<char>>)
    ensures
        forall|i: int|
            0 <= i < shared_channels(servers, occupied).len() ==> occupied.contains(
                (#[trigger] shared_channels(servers, occupied)[i]).guild,
            ),
    decreases servers.len(),
{
    if servers.len() > 0 {
        let front = shared_channels(servers.drop_last(), occupied);
        law_sharing_needs_occupants(servers.drop_last(), occupied);
        assert forall|i: int| 0 <= i < shared_channels(servers, occupied).len() implies occupied.contains(
            (#[trigger] shared_channels(servers, occupied)[i]).guild,
        ) by {
            if i < front.len() {
                assert(occupied.contains(front[i].guild));
            }
        }
    }
}

/// How far a shared channel has come.
pub enum SharePhase {
    Begin,
    /// The last message is being read.
    Reading,
    /// Titles are being looked for, for a message with this ID and identity.
    Titles { id: String, fingerprint: String, draft: Draft },
    /// A post is being delivered.
    Deliver(Stage),
    Over,
}

pub enum SharePhaseView {
    Begin,
    Reading,
    Titles { id: Seq<char>, fingerprint: Seq<char>, draft: DraftView },
    Deliver(Stage),
    Over,
}

impl SharePhase {
    pub open spec fn view(&self) -> SharePhaseView {
        match *self {
            SharePhase::Begin => SharePhaseView::Begin,
            SharePhase::Reading => SharePhaseView::Reading,
            SharePhase::Titles { id, fingerprint, draft } => SharePhaseView::Titles {
                id: id@,
                fingerprint: fingerprint@,
                draft: draft@,
            },
            SharePhase::Deliver(stage) => SharePhaseView::Deliver(stage),
            SharePhase::Over => SharePhaseView::Over,
        }
    }
}

/// What has to be done outside before sharing can go on.
pub enum ShareAction {
    /// Read the last message of the channel.
    Read,
    /// Look for the titles of these links, where there is none.
    Titles(Vec<Option<String>>),
    /// What a delivery needs.
    Act(Action),
}

pub enum ShareActionView {
    Read,
    Titles(Seq<Option<Seq<char>>>),
    Act(ActionView),
}

impl ShareAction {
    pub open spec fn view(&self) -> ShareActionView {
        match *self {
            ShareAction::Read => ShareActionView::Read,
            ShareAction::Titles(links) => ShareActionView::Titles(links.deep_view()),
            ShareAction::Act(action) => ShareActionView::Act(action@),
        }
    }
}

/// What came of it.
pub enum ShareInput {
    /// The answer: a status and a body.
    Answer(u16, Json),
    /// The titles that were found, one for each link.
    Titles(Vec<Option<String>>),
    /// What came of a step of a delivery.
    Act(Input),
}

pub enum ShareInputView {
    Answer(u16, JsonView),
    Titles(Seq<Option<Seq<char>>>),
    Act(InputView),
}

impl ShareInput {
    pub open spec fn view(&self) -> ShareInputView {
        match *self {
            ShareInput::Answer(status, body) => ShareInputView::Answer(status, body@),
            ShareInput::Titles(titles) => ShareInputView::Titles(titles.deep_view()),
            ShareInput::Act(input) => ShareInputView::Act(input@),
        }
    }
}

/// What comes of a step: the entry, if there is one, the next phase, and what to do.
pub type ShareProgress = Result<
    (Option<EntryView>, SharePhaseView, ShareActionView),
    ShareError,
>;

/// Nothing more to do.
pub open spec fn rest(e: Option<EntryView>) -> ShareProgress {
    Ok((e, SharePhaseView::Over, ShareActionView::Act(ActionView::Finish)))
}

/// Has an entry saved, and is done with it. A dry run saves nothing.
pub open spec fn keep(e: EntryView, dry_run: bool) -> ShareProgress {
    Ok(
        (
            Some(e),
            SharePhaseView::Over,
            ShareActionView::Act(
                if dry_run {
                    ActionView::Finish
                } else {
                    ActionView::Save
                },
            ),
        ),
    )
}

/// Delivers what is pending.
pub open spec fn deliver_step(
    e: EntryView,
    dry_run: bool,
    stage: Stage,
    input: InputView,
    now: Timestamp,
) -> ShareProgress {
    match delivery(e, dry_run, stage, input, now) {
        Err(error) => Err(ShareError::Engine(error)),
        Ok((next, to, action)) => if action is Finish {
            rest(Some(next))
        } else {
            Ok((Some(next), SharePhaseView::Deliver(to), ShareActionView::Act(action)))
        },
    }
}

/// The first message of an answer.
pub open spec fn first_message(body: JsonView) -> Option<JsonView> {
    match list_in(body) {
        Some(items) => if items.len() > 0 {
            Some(items[0])
        } else {
            None
        },
        None => None,
    }
}

/// The ID of a channel's last message; zero where there is no message.
pub open spec fn message_id(message: Option<JsonView>) -> Result<Seq<char>, ShareError> {
    match message {
        None => Ok("0"@),
        Some(m) => match text_in(member(m, "id"@)) {
            None => Err(ShareError::MissingId),
            Some(id) => if id == "0"@ || is_snowflake(id) {
                Ok(id)
            } else {
                Err(ShareError::InvalidId)
            },
        },
    }
}

/// The entry of a channel that is looked at for the first time: what was written before is
/// not passed on.
pub open spec fn baseline(id: Seq<char>, fingerprint: Seq<char>, now: Timestamp) -> EntryView {
    EntryView {
        metadata_fingerprint: Some(fingerprint),
        session_id: id,
        first_seen: now,
        announced: true,
        last_post: None,
        last_attachment: None,
        pending: None,
    }
}

/// The links of a draft that no title is known of.
pub open spec fn untitled(links: Seq<LinkView>) -> Seq<Option<Seq<char>>> {
    links.map_values(
        |link: LinkView|
            if link.title is None {
                Some(link.url)
            } else {
                None
            },
    )
}

/// Looks at the last message of a channel. One that is the same as before, or older, is left
/// alone; one that says nothing moves the cursor.
pub open spec fn take_message(
    e: Option<EntryView>,
    dry_run: bool,
    id: Seq<char>,
    now: Timestamp,
    fingerprint: Seq<char>,
    draft: Option<DraftView>,
) -> ShareProgress {
    match e {
        None => keep(baseline(id, fingerprint, now), dry_run),
        Some(entry) => if entry.metadata_fingerprint == Some(fingerprint) {
            rest(e)
        } else if parsed(id) is None || parsed(entry.session_id) is None {
            Err(ShareError::Cursor)
        } else if parsed(id)->0 < parsed(entry.session_id)->0 {
            rest(e)
        } else {
            match draft {
                None => keep(
                    EntryView {
                        session_id: id,
                        metadata_fingerprint: Some(fingerprint),
                        ..entry
                    },
                    dry_run,
                ),
                Some(draft) => Ok(
                    (
                        e,
                        SharePhaseView::Titles { id, fingerprint, draft },
                        ShareActionView::Titles(untitled(draft.links)),
                    ),
                ),
            }
        },
    }
}

/// The announcement of a shared message.
pub open spec fn shared_post(text: Seq<char>, fingerprint: Seq<char>, key: Seq<char>) -> PendingView {
    PendingView {
        shared_message: true,
        avatars: Seq::empty(),
        metadata_fingerprint: Some(fingerprint),
        key,
        text,
        attachment: None,
        media_id: None,
        attempted_at: None,
        is_start: false,
    }
}

/// Saves a message that is to be passed on, before it is delivered. A dry run delivers it at
/// once.
pub open spec fn pass_on(
    entry: EntryView,
    dry_run: bool,
    id: Seq<char>,
    p: PendingView,
    now: Timestamp,
) -> ShareProgress {
    let next = with_pending(EntryView { session_id: id, ..entry }, p);
    if dry_run {
        deliver_step(next, dry_run, Stage::Begin, InputView::Done, now)
    } else {
        Ok(
            (
                Some(next),
                SharePhaseView::Deliver(Stage::Begin),
                ShareActionView::Act(ActionView::Save),
            ),
        )
    }
}

/// A step of a shared channel. Its arguments are the channel's entry, whether the run only
/// reads, how far the channel has come, what came of the last action, the time, the identity
/// of the message that was read and what is passed on of it, and a key for a new post.
pub open spec fn share_result(
    e: Option<EntryView>,
    dry_run: bool,
    phase: SharePhaseView,
    input: ShareInputView,
    now: Timestamp,
    fingerprint: Seq<char>,
    draft: Option<DraftView>,
    key: Seq<char>,
) -> ShareProgress {
    match phase {
        SharePhaseView::Begin => if e is Some && e->0.pending is Some {
            deliver_step(e->0, dry_run, Stage::Begin, InputView::Done, now)
        } else {
            Ok((e, SharePhaseView::Reading, ShareActionView::Read))
        },
        SharePhaseView::Reading => match input {
            ShareInputView::Answer(status, body) => if !succeeded(status) {
                Err(ShareError::Status(status))
            } else if list_in(body) is None {
                Err(ShareError::Response)
            } else {
                match message_id(first_message(body)) {
                    Err(error) => Err(error),
                    Ok(id) => take_message(e, dry_run, id, now, fingerprint, draft),
                }
            },
            _ => Err(ShareError::Response),
        },
        SharePhaseView::Titles { id, fingerprint: known, draft: kept } => match (e, input) {
            (Some(entry), ShareInputView::Titles(found)) => pass_on(
                entry,
                dry_run,
                id,
                shared_post(shared_text(kept, found), known, key),
                now,
            ),
            _ => Err(ShareError::Response),
        },
        SharePhaseView::Deliver(stage) => match (e, input) {
            (Some(entry), ShareInputView::Act(input)) => deliver_step(
                entry,
                dry_run,
                stage,
                input,
                now,
            ),
            (None, ShareInputView::Act(input)) => if is_unsaved(dry_run, stage, input) {
                Err(ShareError::Engine(EngineError::Unsaved))
            } else {
                rest(None)
            },
            _ => Err(ShareError::Response),
        },
        SharePhaseView::Over => if dry_run || input == ShareInputView::Act(InputView::Done) {
            rest(e)
        } else {
            Err(ShareError::Engine(EngineError::Unsaved))
        },
    }
}

/// Whether what a function returned is what a step comes to.
pub open spec fn share_agrees(
    r: Result<(Option<Entry>, SharePhase, ShareAction), ShareError>,
    wanted: ShareProgress,
) -> bool {
    match r {
        Ok((e, phase, action)) => wanted == Ok::<
            (Option<EntryView>, SharePhaseView, ShareActionView),
            ShareError,
        >((e.deep_view(), phase@, action@)),
        Err(error) => wanted == Err::<
            (Option<EntryView>, SharePhaseView, ShareActionView),
            ShareError,
        >(error),
    }
}

fn do_rest(e: Option<Entry>) -> (r: Result<(Option<Entry>, SharePhase, ShareAction), ShareError>)
    ensures
        share_agrees(r, rest(e.deep_view())),
{
    Ok((e, SharePhase::Over, ShareAction::Act(Action::Finish)))
}

fn do_keep(e: Entry, dry_run: bool) -> (r: Result<
    (Option<Entry>, SharePhase, ShareAction),
    ShareError,
>)
    ensures
        share_agrees(r, keep(e@, dry_run)),
{
    let action = if dry_run {
        Action::Finish
    } else {
        Action::Save
    };
    Ok((Some(e), SharePhase::Over, ShareAction::Act(action)))
}

fn do_deliver(e: Entry, dry_run: bool, stage: Stage, input: Input, now: Timestamp) -> (r: Result<
    (Option<Entry>, SharePhase, ShareAction),
    ShareError,
>)
    ensures
        share_agrees(r, deliver_step(e@, dry_run, stage, input@, now)),
{
    match advance(e, dry_run, stage, input, now) {
        Err(error) => Err(ShareError::Engine(error)),
        Ok((next, to, action)) => match action {
            Action::Finish => do_rest(Some(next)),
            other => Ok((Some(next), SharePhase::Deliver(to), ShareAction::Act(other))),
        },
    }
}

fn find_untitled(links: &Vec<Link>) -> (r: Vec<Option<String>>)
    ensures
        r.deep_view() == untitled(links.deep_view()),
{
    let ghost shown = links.deep_view();
    let mut out: Vec<Option<String>> = Vec::new();
    assert(out.deep_view() =~= untitled(shown.take(0)));
    for i in 0..links.len()
        invariant
            shown == links.deep_view(),
            out.deep_view() == untitled(shown.take(i as int)),
    {
        let ghost held = out.deep_view();
        let item = if links[i].title.is_none() {
            Some(links[i].url.clone())
        } else {
            None
        };
        out.push(item);
        proof {
            assert(out.deep_view() =~= held.push(item.deep_view()));
            assert(untitled(shown.take(i + 1)) =~= held.push(item.deep_view()));
        }
    }
    assert(shown.take(shown.len() as int) =~= shown);
    out
}

fn do_take(
    e: Option<Entry>,
    dry_run: bool,
    id: &str,
    now: Timestamp,
    fingerprint: &str,
    draft: Option<Draft>,
) -> (r: Result<(Option<Entry>, SharePhase, ShareAction), ShareError>)
    ensures
        share_agrees(
            r,
            take_message(e.deep_view(), dry_run, id@, now, fingerprint@, draft.deep_view()),
        ),
{
    let entry = match e {
        Some(entry) => entry,
        None => {
            let fresh = Entry {
                metadata_fingerprint: Some(fingerprint.to_owned()),
                session_id: id.to_owned(),
                first_seen: now,
                announced: true,
                last_post: None,
                last_attachment: None,
                pending: None,
            };
            return do_keep(fresh, dry_run);
        },
    };
    if let Some(known) = &entry.metadata_fingerprint {
        if same(known.as_str(), fingerprint) {
            return do_rest(Some(entry));
        }
    }
    let (current, last) = match (parse_u64(id), parse_u64(entry.session_id.as_str())) {
        (Some(current), Some(last)) => (current, last),
        _ => return Err(ShareError::Cursor),
    };
    if current < last {
        return do_rest(Some(entry));
    }
    match draft {
        None => {
            let mut next = entry;
            next.session_id = id.to_owned();
            next.metadata_fingerprint = Some(fingerprint.to_owned());
            do_keep(next, dry_run)
        },
        Some(draft) => {
            let links = find_untitled(&draft.links);
            Ok(
                (
                    Some(entry),
                    SharePhase::Titles {
                        id: id.to_owned(),
                        fingerprint: fingerprint.to_owned(),
                        draft,
                    },
                    ShareAction::Titles(links),
                ),
            )
        },
    }
}

fn id_of<'a>(message: Option<&'a Json>) -> (r: Result<&'a str, ShareError>)
    ensures
        match r {
            Ok(id) => message_id(message_view(message)) == Ok::<Seq<char>, ShareError>(id@),
            Err(e) => message_id(message_view(message)) == Err::<Seq<char>, ShareError>(e),
        },
{
    match message {
        None => Ok("0"),
        Some(m) => match m.get("id").as_text() {
            None => Err(ShareError::MissingId),
            Some(id) => if same(id, "0") || snowflake(id) {
                Ok(id)
            } else {
                Err(ShareError::InvalidId)
            },
        },
    }
}

/// The first message of an answer.
pub fn first_of(body: &Json) -> (r: Option<&Json>)
    ensures
        message_view(r) == first_message(body@),
{
    match body.as_list() {
        Some(items) => if items.len() > 0 {
            Some(&items[0])
        } else {
            None
        },
        None => None,
    }
}

/// A step of a shared channel's entry, given the identity of the message that was read, what
/// is passed on of it, and a key for a new post.
pub fn share_step(
    e: Option<Entry>,
    dry_run: bool,
    phase: SharePhase,
    input: ShareInput,
    now: Timestamp,
    fingerprint: &str,
    draft: Option<Draft>,
    key: &str,
) -> (r: Result<(Option<Entry>, SharePhase, ShareAction), ShareError>)
    ensures
        share_agrees(
            r,
            share_result(
                e.deep_view(),
                dry_run,
                phase@,
                input@,
                now,
                fingerprint@,
                draft.deep_view(),
                key@,
            ),
        ),
{
    match phase {
        SharePhase::Begin => match e {
            Some(entry) => if entry.pending.is_some() {
                do_deliver(entry, dry_run, Stage::Begin, Input::Done, now)
            } else {
                Ok((Some(entry), SharePhase::Reading, ShareAction::Read))
            },
            None => Ok((None, SharePhase::Reading, ShareAction::Read)),
        },
        SharePhase::Reading => match input {
            ShareInput::Answer(status, body) => {
                if !is_success(status) {
                    return Err(ShareError::Status(status));
                }
                if body.as_list().is_none() {
                    return Err(ShareError::Response);
                }
                match id_of(first_of(&body)) {
                    Err(error) => Err(error),
                    Ok(id) => do_take(e, dry_run, id, now, fingerprint, draft),
                }
            },
            _ => Err(ShareError::Response),
        },
        SharePhase::Titles { id, fingerprint: known, draft: kept } => match (e, input) {
            (Some(entry), ShareInput::Titles(found)) => {
                let text = render(&kept, &found);
                let p = Pending {
                    shared_message: true,
                    avatars: Vec::new(),
                    metadata_fingerprint: Some(known),
                    key: key.to_owned(),
                    text,
                    attachment: None,
                    media_id: None,
                    attempted_at: None,
                    is_start: false,
                };
                assert(p@.avatars =~= Seq::<AvatarView>::empty());
                let mut next = entry;
                next.session_id = id;
                next.pending = Some(p);
                if dry_run {
                    return do_deliver(next, dry_run, Stage::Begin, Input::Done, now);
                }
                Ok(
                    (
                        Some(next),
                        SharePhase::Deliver(Stage::Begin),
                        ShareAction::Act(Action::Save),
                    ),
                )
            },
            _ => Err(ShareError::Response),
        },
        SharePhase::Deliver(stage) => match (e, input) {
            (Some(entry), ShareInput::Act(input)) => do_deliver(entry, dry_run, stage, input, now),
            (None, ShareInput::Act(input)) => if lacks_save(dry_run, stage, &input) {
                Err(ShareError::Engine(EngineError::Unsaved))
            } else {
                do_rest(None)
            },
            _ => Err(ShareError::Response),
        },
        SharePhase::Over => {
            let saved = match &input {
                ShareInput::Act(input) => !lacks_save(dry_run, Stage::Done, input),
                _ => dry_run,
            };
            if saved {
                do_rest(e)
            } else {
                Err(ShareError::Engine(EngineError::Unsaved))
            }
        },
    }
}

/// Whether a state and what a function returned are what a step comes to. An error leaves the
/// state as it was.
pub open spec fn shares_to(
    before: State,
    after: State,
    name: Seq<char>,
    r: Result<(SharePhase, ShareAction), ShareError>,
    wanted: ShareProgress,
) -> bool {
    match r {
        Ok((phase, action)) => {
            &&& wanted is Ok
            &&& (wanted->Ok_0.1, wanted->Ok_0.2) == (phase@, action@)
            &&& before.becomes(after, name, wanted->Ok_0.0)
        },
        Err(error) => {
            &&& wanted == Err::<
                (Option<EntryView>, SharePhaseView, ShareActionView),
                ShareError,
            >(error)
            &&& after == before
        },
    }
}

/// A step of a shared channel, given the identity of the message that was read, what is passed
/// on of it, and a key for a new post. Nothing else of the state is touched.
pub fn share_with(
    state: &mut State,
    name: &str,
    dry_run: bool,
    phase: SharePhase,
    input: ShareInput,
    now: Timestamp,
    fingerprint: &str,
    draft: Option<Draft>,
    key: &str,
) -> (r: Result<(SharePhase, ShareAction), ShareError>)
    requires
        old(state).wf(),
    ensures
        final(state).wf(),
        shares_to(
            *old(state),
            *final(state),
            name@,
            r,
            share_result(
                old(state).entry(name@),
                dry_run,
                phase@,
                input@,
                now,
                fingerprint@,
                draft.deep_view(),
                key@,
            ),
        ),
{
    let entry = state.get(name);
    match share_step(entry, dry_run, phase, input, now, fingerprint, draft, key) {
        Err(error) => Err(error),
        Ok((next, to, action)) => {
            match next {
                Some(e) => state.put(name, e),
                None => state.forget(name),
            }
            Ok((to, action))
        },
    }
}

/// The message that an answer brings.
pub open spec fn message_in(input: ShareInputView) -> Option<JsonView> {
    match input {
        ShareInputView::Answer(_, body) => first_message(body),
        _ => None,
    }
}

/// What is passed on of a message.
pub open spec fn draft_of(message: Option<JsonView>) -> Option<DraftView> {
    match message {
        Some(m) => drafted(m, spans_of(content_of(m))),
        None => None,
    }
}

impl App {
    /// A step of a shared channel. Nothing else of the state is touched.
    pub fn share_updates(
        state: &mut State,
        name: &str,
        dry_run: bool,
        phase: SharePhase,
        input: ShareInput,
        now: Timestamp,
    ) -> (r: Result<(SharePhase, ShareAction), ShareError>)
        requires
            old(state).wf(),
        ensures
            final(state).wf(),
            exists|key: Seq<char>| #[trigger]
                is_uuid(key) && shares_to(
                    *old(state),
                    *final(state),
                    name@,
                    r,
                    share_result(
                        old(state).entry(name@),
                        dry_run,
                        phase@,
                        input@,
                        now,
                        revision_of(message_in(input@)),
                        draft_of(message_in(input@)),
                        key,
                    ),
                ),
    {
        let message = match &input {
            ShareInput::Answer(_, body) => first_of(body),
            _ => None,
        };
        let fingerprint = revision(message);
        let drafted = match message {
            Some(m) => draft(m),
            None => None,
        };
        let key = fresh_key();
        assert(is_uuid(key@));
        share_with(
            state,
            name,
            dry_run,
            phase,
            input,
            now,
            fingerprint.as_str(),
            drafted,
            key.as_str(),
        )
    }
}

/// A channel that is looked at for the first time is only remembered: what was written before
/// is not passed on.
pub proof fn law_baseline_comes_first(
    dry_run: bool,
    status: u16,
    body: JsonView,
    now: Timestamp,
    fingerprint: Seq<char>,
    draft: Option<DraftView>,
    key: Seq<char>,
)
    requires
        succeeded(status),
        list_in(body) is Some,
        message_id(first_message(body)) is Ok,
    ensures
        share_result(
            None,
            dry_run,
            SharePhaseView::Reading,
            ShareInputView::Answer(status, body),
            now,
            fingerprint,
            draft,
            key,
        ) == keep(
            baseline(message_id(first_message(body))->Ok_0, fingerprint, now),
            dry_run,
        ),
{
}

/// A message that is the same as before, or older, changes nothing and publishes nothing.
pub proof fn law_only_news_is_passed_on(
    e: EntryView,
    dry_run: bool,
    id: Seq<char>,
    now: Timestamp,
    fingerprint: Seq<char>,
    draft: Option<DraftView>,
)
    requires
        e.metadata_fingerprint == Some(fingerprint) || parsed(id) is Some && parsed(
            e.session_id,
        ) is Some && parsed(id)->0 < parsed(e.session_id)->0,
    ensures
        take_message(Some(e), dry_run, id, now, fingerprint, draft) == rest(Some(e)),
{
}

/// A failure to read is an error that leaves the channel's entry as it was: it is never taken
/// for an empty channel.
pub proof fn law_unreadable_channel_is_no_empty_one(
    e: Option<EntryView>,
    dry_run: bool,
    status: u16,
    body: JsonView,
    now: Timestamp,
    fingerprint: Seq<char>,
    draft: Option<DraftView>,
    key: Seq<char>,
)
    requires
        !succeeded(status) || list_in(body) is None,
    ensures
        share_result(
            e,
            dry_run,
            SharePhaseView::Reading,
            ShareInputView::Answer(status, body),
            now,
            fingerprint,
            draft,
            key,
        ) is Err,
{
}

/// What an action does outside.
pub open spec fn acts(action: ShareActionView) -> ActionView {
    match action {
        ShareActionView::Act(action) => action,
        _ => ActionView::Finish,
    }
}

/// What came of an action.
pub open spec fn came_of(input: ShareInputView) -> InputView {
    match input {
        ShareInputView::Act(input) => input,
        _ => InputView::Failed,
    }
}

/// What holds of a shared channel's entry in a phase, after the last action that was asked
/// for: it is saved, or its save is that action.
pub open spec fn share_holds(
    e: Option<EntryView>,
    saved: Option<EntryView>,
    dry_run: bool,
    phase: SharePhaseView,
    last: ActionView,
) -> bool {
    &&& !dry_run ==> if last is Save {
        phase is Over || (phase matches SharePhaseView::Deliver(stage) && follows_save(stage))
    } else {
        phase is Over || e == saved
    }
    &&& phase matches SharePhaseView::Deliver(stage) ==> (e matches Some(entry) ==> stage_holds(
        entry,
        dry_run,
        stage,
    ))
}

/// Every step of a shared channel keeps all that is known of it saved, and a post is published
/// only while the entry that is saved holds it, together with the intent to publish it. A save
/// that was not done leads to no step at all. A dry run does nothing but read. `saved` is what
/// was saved when the last action was asked for, and `input` is what came of that.
pub proof fn law_nothing_is_shared_unsaved(
    e: Option<EntryView>,
    saved: Option<EntryView>,
    last: ActionView,
    dry_run: bool,
    phase: SharePhaseView,
    input: ShareInputView,
    now: Timestamp,
    fingerprint: Seq<char>,
    draft: Option<DraftView>,
    key: Seq<char>,
)
    requires
        share_holds(e, saved, dry_run, phase, last),
        share_result(e, dry_run, phase, input, now, fingerprint, draft, key) is Ok,
    ensures
        ({
            let (next, to, action) = share_result(
                e,
                dry_run,
                phase,
                input,
                now,
                fingerprint,
                draft,
                key,
            )->Ok_0;
            let act = acts(action);
            let held = saved_after(saved, e, last, came_of(input));
            &&& share_holds(next, held, dry_run, to, act)
            &&& !dry_run && last is Save ==> came_of(input) is Done
            &&& act is Publish ==> !dry_run && next == held && next is Some
                && next->0.pending is Some && next->0.pending->0.attempted_at is Some
            &&& dry_run ==> is_quiet(act)
        }),
{
    let held = saved_after(saved, e, last, came_of(input));
    match phase {
        SharePhaseView::Begin => {
            if e is Some && e->0.pending is Some {
                lemma_delivered_saved(e->0, held, dry_run, Stage::Begin, InputView::Done, now);
            }
        },
        SharePhaseView::Titles { id, fingerprint: known, draft: kept } => {
            if let (Some(entry), ShareInputView::Titles(found)) = (e, input) {
                if dry_run {
                    let p = shared_post(shared_text(kept, found), known, key);
                    let next = with_pending(EntryView { session_id: id, ..entry }, p);
                    lemma_delivered_saved(next, held, dry_run, Stage::Begin, InputView::Done, now);
                }
            }
        },
        SharePhaseView::Deliver(stage) => {
            if let (Some(entry), ShareInputView::Act(input)) = (e, input) {
                lemma_delivered_saved(entry, held, dry_run, stage, input, now);
            }
        },
        _ => {},
    }
}

proof fn lemma_delivered_saved(
    e: EntryView,
    saved: Option<EntryView>,
    dry_run: bool,
    stage: Stage,
    input: InputView,
    now: Timestamp,
)
    requires
        stage_holds(e, dry_run, stage),
        deliver_step(e, dry_run, stage, input, now) is Ok ==> dry_run || saved == Some(e),
    ensures
        deliver_step(e, dry_run, stage, input, now) matches Ok((next, to, action)) ==> {
            let act = action->Act_0;
            &&& action is Act
            &&& share_holds(next, saved, dry_run, to, act)
            &&& act is Publish ==> !dry_run && next == saved && next is Some
                && next->0.pending is Some && next->0.pending->0.attempted_at is Some
            &&& dry_run ==> is_quiet(act)
        },
{
    if let Ok((next, to, action)) = delivery(e, dry_run, stage, input, now) {
        law_delivery_stays_sound(e, dry_run, stage, input, now);
        if dry_run {
            law_dry_delivery_does_nothing(e, stage, input, now);
        } else {
            law_changes_are_saved_at_once(e, stage, input, now);
            if action is Publish {
                law_intent_is_saved_before_publication(e, dry_run, stage, input, now);
            }
        }
    }
}

/// How a shared channel stands between two steps: what is known of it, what is saved of it,
/// the action that was asked for last, and how far it has come.
pub struct ShareStanding {
    pub e: Option<EntryView>,
    pub saved: Option<EntryView>,
    pub last: ActionView,
    pub phase: SharePhaseView,
}

/// What a step is given: what came of the last action, the time, the identity of the message
/// that was read and what is passed on of it, and a key.
pub struct ShareTurn {
    pub input: ShareInputView,
    pub now: Timestamp,
    pub fingerprint: Seq<char>,
    pub draft: Option<DraftView>,
    pub key: Seq<char>,
}

/// How a shared channel stands when a run comes to it.
pub open spec fn share_untouched(e: Option<EntryView>) -> ShareStanding {
    ShareStanding { e, saved: e, last: ActionView::Finish, phase: SharePhaseView::Begin }
}

/// How a shared channel stands after any number of steps. An error ends them, and leaves
/// everything as it was.
pub open spec fn share_course(at: ShareStanding, dry_run: bool, turns: Seq<ShareTurn>) -> (
    ShareStanding,
    bool,
)
    decreases turns.len(),
{
    if turns.len() == 0 {
        (at, true)
    } else {
        let (m, going) = share_course(at, dry_run, turns.drop_last());
        let turn = turns.last();
        if !going {
            (m, false)
        } else {
            match share_result(
                m.e,
                dry_run,
                m.phase,
                turn.input,
                turn.now,
                turn.fingerprint,
                turn.draft,
                turn.key,
            ) {
                Err(_) => (m, false),
                Ok((next, to, action)) => (
                    ShareStanding {
                        e: next,
                        saved: saved_after(m.saved, m.e, m.last, came_of(turn.input)),
                        last: acts(action),
                        phase: to,
                    },
                    true,
                ),
            }
        }
    }
}

/// Whether a cursor is a number, and none below this one.
pub open spec fn cursor_from(text: Seq<char>, least: u64) -> bool {
    parsed(text) is Some && least <= parsed(text)->0
}

/// What holds of a cursor in a phase.
pub open spec fn cursor_holds(e: Option<EntryView>, phase: SharePhaseView, least: u64) -> bool {
    &&& e is Some
    &&& cursor_from(e->0.session_id, least)
    &&& phase matches SharePhaseView::Titles { id, .. } ==> cursor_from(id, least)
}

/// A cursor never moves back: whatever is read, and whatever comes of the actions, after any
/// number of steps it is a number that is not below what it was. Neither is an error's.
pub proof fn law_cursor_never_moves_back(
    e: EntryView,
    least: u64,
    dry_run: bool,
    turns: Seq<ShareTurn>,
)
    requires
        cursor_from(e.session_id, least),
    ensures
        ({
            let m = share_course(share_untouched(Some(e)), dry_run, turns).0;
            cursor_holds(m.e, m.phase, least)
        }),
    decreases turns.len(),
{
    if turns.len() > 0 {
        law_cursor_never_moves_back(e, least, dry_run, turns.drop_last());
    }
}

/// Whatever comes of the actions, a post is asked for only while the very entry that holds it,
/// with the intent to publish it, is what is saved. A dry run leaves what is saved as it was.
pub proof fn law_whole_sharing_is_safe(
    e: Option<EntryView>,
    dry_run: bool,
    turns: Seq<ShareTurn>,
)
    ensures
        ({
            let (m, going) = share_course(share_untouched(e), dry_run, turns);
            &&& share_holds(m.e, m.saved, dry_run, m.phase, m.last)
            &&& m.last is Publish ==> !dry_run && m.saved is Some && m.e == m.saved
                && m.saved->0.pending is Some && m.saved->0.pending->0.attempted_at is Some
            &&& dry_run ==> m.saved == e && is_quiet(m.last)
        }),
    decreases turns.len(),
{
    if turns.len() > 0 {
        law_whole_sharing_is_safe(e, dry_run, turns.drop_last());
        let (m, going) = share_course(share_untouched(e), dry_run, turns.drop_last());
        let turn = turns.last();
        if going && share_result(
            m.e,
            dry_run,
            m.phase,
            turn.input,
            turn.now,
            turn.fingerprint,
            turn.draft,
            turn.key,
        ) is Ok {
            law_nothing_is_shared_unsaved(
                m.e,
                m.saved,
                m.last,
                dry_run,
                m.phase,
                turn.input,
                turn.now,
                turn.fingerprint,
                turn.draft,
                turn.key,
            );
        }
    }
}

/// Whether an answer brings no news to an entry: no message, an older one, or the one that was
/// there before.
pub open spec fn no_news(e: EntryView, turn: ShareTurn) -> bool {
    match turn.input {
        ShareInputView::Answer(status, body) => {
            ||| first_message(body) is None && turn.draft is None
            ||| e.metadata_fingerprint == Some(turn.fingerprint)
            ||| message_id(first_message(body)) matches Ok(id) && parsed(id) is Some && parsed(
                e.session_id,
            ) is Some && parsed(id)->0 < parsed(e.session_id)->0
        },
        _ => true,
    }
}

/// Where the channel's last message is no news, nothing is published of it, however the
/// channel is gone about.
pub proof fn law_no_news_no_post(e: EntryView, dry_run: bool, turns: Seq<ShareTurn>)
    requires
        e.pending is None,
        turns.len() > 1 ==> no_news(e, turns[1]),
    ensures
        ({
            let (m, going) = share_course(share_untouched(Some(e)), dry_run, turns);
            &&& !(m.last is Publish) && !(m.last is Card) && !(m.last is Upload)
            &&& turns.len() == 0 ==> m.phase is Begin && m.e == Some(e)
            &&& turns.len() == 1 ==> m.phase is Reading && m.e == Some(e)
            &&& turns.len() > 1 ==> m.phase is Over || !going
        }),
    decreases turns.len(),
{
    if turns.len() > 0 {
        law_no_news_no_post(e, dry_run, turns.drop_last());
    }
}

/// No name of a shared channel belongs to another server: a step of one leaves the entries of
/// servers that nobody is in a call of as they were.
pub proof fn law_other_servers_are_untouched(
    servers: Seq<ServerView>,
    occupied: Set<Seq<char>>,
    i: int,
    guild: Seq<char>,
    user: Seq<char>,
)
    requires
        0 <= i < shared_channels(servers, occupied).len(),
        !occupied.contains(guild),
        !guild.contains(':'),
        !shared_channels(servers, occupied)[i].guild.contains(':'),
    ensures
        shared_name(shared_channels(servers, occupied)[i]) != target_key(guild, user),
{
    law_sharing_needs_occupants(servers, occupied);
    let s = shared_channels(servers, occupied)[i];
    assert(occupied.contains(s.guild));
    let a = shared_name(s);
    let b = target_key(guild, user);
    if a == b {
        reveal_strlit(":");
        if s.guild.len() < guild.len() {
            assert(a[s.guild.len() as int] == ':');
            assert(b[s.guild.len() as int] == guild[s.guild.len() as int]);
        } else if guild.len() < s.guild.len() {
            assert(b[guild.len() as int] == ':');
            assert(a[guild.len() as int] == s.guild[guild.len() as int]);
        } else {
            assert(s.guild =~= a.take(guild.len() as int));
            assert(guild =~= b.take(guild.len() as int));
        }
    }
}

/// The entries after some shared channels were gone about, each in some course.
pub open spec fn after_sharing(
    entries: Map<Seq<char>, EntryView>,
    channels: Seq<SharedView>,
    dry_run: bool,
    courses: Seq<Seq<ShareTurn>>,
) -> Map<Seq<char>, EntryView>
    decreases channels.len(),
{
    if channels.len() == 0 || courses.len() < channels.len() {
        entries
    } else {
        let before = after_sharing(entries, channels.drop_last(), dry_run, courses);
        let name = shared_name(channels.last());
        let e = if before.dom().contains(name) {
            Some(before[name])
        } else {
            None
        };
        match share_course(
            share_untouched(e),
            dry_run,
            courses[channels.len() - 1],
        ).0.e {
            Some(next) => before.insert(name, next),
            None => before.remove(name),
        }
    }
}

/// A whole round of sharing, whatever comes of its actions, leaves the entries of servers that
/// nobody is in a call of as they were.
pub proof fn law_sharing_keeps_to_occupied_servers(
    entries: Map<Seq<char>, EntryView>,
    servers: Seq<ServerView>,
    occupied: Set<Seq<char>>,
    n: nat,
    dry_run: bool,
    courses: Seq<Seq<ShareTurn>>,
    guild: Seq<char>,
    user: Seq<char>,
)
    requires
        n <= shared_channels(servers, occupied).len(),
        !occupied.contains(guild),
        !guild.contains(':'),
        forall|i: int|
            0 <= i < servers.len() ==> !(#[trigger] servers[i]).guild_id.contains(':'),
    ensures
        ({
            let channels = shared_channels(servers, occupied).take(n as int);
            let after = after_sharing(entries, channels, dry_run, courses);
            let key = target_key(guild, user);
            &&& after.dom().contains(key) <==> entries.dom().contains(key)
            &&& after.dom().contains(key) ==> after[key] == entries[key]
        }),
    decreases n,
{
    let all = shared_channels(servers, occupied);
    let channels = all.take(n as int);
    if n > 0 && courses.len() >= n {
        let m = (n - 1) as nat;
        law_sharing_keeps_to_occupied_servers(
            entries,
            servers,
            occupied,
            m,
            dry_run,
            courses,
            guild,
            user,
        );
        assert(channels.drop_last() =~= all.take(m as int));
        lemma_channels_of_servers(servers, occupied);
        assert(!all[m as int].guild.contains(':'));
        law_other_servers_are_untouched(servers, occupied, m as int, guild, user);
    }
}

proof fn lemma_channels_of_servers(servers: Seq<ServerView>, occupied: Set<Seq<char>>)
    requires
        forall|i: int|
            0 <= i < servers.len() ==> !(#[trigger] servers[i]).guild_id.contains(':'),
    ensures
        forall|i: int|
            0 <= i < shared_channels(servers, occupied).len() ==> !(
            #[trigger] shared_channels(servers, occupied)[i]).guild.contains(':'),
    decreases servers.len(),
{
    if servers.len() > 0 {
        let front = servers.drop_last();
        assert forall|i: int| 0 <= i < front.len() implies !(
        #[trigger] front[i]).guild_id.contains(':') by {
            assert(!servers[i].guild_id.contains(':'));
        }
        lemma_channels_of_servers(front, occupied);
        assert(!servers[servers.len() - 1].guild_id.contains(':'));
        let before = shared_channels(front, occupied);
        let after = shared_channels(servers, occupied);
        assert forall|i: int| 0 <= i < after.len() implies !(
        #[trigger] after[i]).guild.contains(':') by {
            if i < before.len() {
                assert(!before[i].guild.contains(':'));
            }
        }
    }
}

/// What Discord adds to a message later, such as previews of its links, makes no new version
/// of it.
pub proof fn law_previews_are_no_news(m: JsonView, n: JsonView)
    requires
        member(m, "id"@) == member(n, "id"@),
        member(m, "edited_timestamp"@) == member(n, "edited_timestamp"@),
    ensures
        revision_of(Some(m)) == revision_of(Some(n)),
{
}

/// Another message, or another edit of one, has another identity, as far as the texts of which
/// those are the digests; and so has no message at all.
pub proof fn law_edits_have_another_text(m: JsonView, n: JsonView)
    requires
        well_written(member(m, "id"@)),
        well_written(member(n, "id"@)),
        well_written(member(m, "edited_timestamp"@)),
        well_written(member(n, "edited_timestamp"@)),
    ensures
        json_text(identity(Some(m))) == json_text(identity(Some(n))) <==> member(m, "id"@)
            == member(n, "id"@) && member(m, "edited_timestamp"@) == member(
            n,
            "edited_timestamp"@,
        ),
        json_text(identity(Some(m))) != json_text(identity(None)),
{
    let x = identity(Some(m));
    let y = identity(Some(n));
    assert(well_written(x) && well_written(y) && well_written(identity(None)));
    if json_text(x) == json_text(y) {
        law_text_tells_values_apart(x, y);
        assert(x->List_0[0] == y->List_0[0] && x->List_0[1] == y->List_0[1]);
    }
    if json_text(x) == json_text(identity(None)) {
        law_text_tells_values_apart(x, identity(None));
    }
}

} // verus!
