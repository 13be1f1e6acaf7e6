//! What is announced and when, and how an announcement is delivered once and no more.
use vstd::prelude::*;
use vstd::string::*;

use crate::activity::clone_image;
use crate::avatars::{clone_avatars, Avatar, AvatarView};
use crate::config::Config;
use crate::discord::{
    clone_text, Announcement, Attachment, AttachmentView, Discord, ImageSource,
};
use crate::mastodon::Mastodon;
use crate::store::Store;
use crate::table::Table;
use crate::text::{
    begins, find, join, join_texts, lemma_filter_step, lemma_find, lines, lines_of, same,
    starts_with, without_return,
};
use crate::time::{elapsed, elapsed_seconds, Timestamp};

verus! {

/// All that is remembered between runs.
pub struct State {
    pub version: u32,
    /// What is remembered of each target, by the target's name.
    pub entries: Table<Entry>,
}

/// What is remembered of a target.
pub struct Entry {
    /// The identity of what was announced last.
    pub metadata_fingerprint: Option<String>,
    pub session_id: String,
    pub first_seen: Timestamp,
    pub announced: bool,
    pub last_post: Option<Timestamp>,
    pub last_attachment: Option<String>,
    /// What is still to be published.
    pub pending: Option<Pending>,
}

/// An announcement that is not known to be published.
pub struct Pending {
    /// Whether it passes on a message of a shared channel.
    pub shared_message: bool,
    pub avatars: Vec<Avatar>,
    pub metadata_fingerprint: Option<String>,
    /// The key by which the destination recognises a repetition.
    pub key: String,
    pub text: String,
    pub attachment: Option<Attachment>,
    pub media_id: Option<String>,
    pub attempted_at: Option<Timestamp>,
    pub is_start: bool,
}

pub struct PendingView {
    pub shared_message: bool,
    pub avatars: Seq<AvatarView>,
    pub metadata_fingerprint: Option<Seq<char>>,
    pub key: Seq<char>,
    pub text: Seq<char>,
    pub attachment: Option<AttachmentView>,
    pub media_id: Option<Seq<char>>,
    pub attempted_at: Option<Timestamp>,
    pub is_start: bool,
}

impl View for Pending {
    type V = PendingView;

    open spec fn view(&self) -> PendingView {
        PendingView {
            shared_message: self.shared_message,
            avatars: self.avatars.deep_view(),
            metadata_fingerprint: self.metadata_fingerprint.deep_view(),
            key: self.key@,
            text: self.text@,
            attachment: self.attachment.deep_view(),
            media_id: self.media_id.deep_view(),
            attempted_at: self.attempted_at,
            is_start: self.is_start,
        }
    }
}

impl DeepView for Pending {
    type V = PendingView;

    open spec fn deep_view(&self) -> PendingView {
        self@
    }
}

impl Clone for Pending {
    fn clone(&self) -> (r: Self)
        ensures
            r@ == self@,
    {
        Pending {
            shared_message: self.shared_message,
            avatars: clone_avatars(&self.avatars),
            metadata_fingerprint: clone_text(&self.metadata_fingerprint),
            key: self.key.clone(),
            text: self.text.clone(),
            attachment: clone_image(&self.attachment),
            media_id: clone_text(&self.media_id),
            attempted_at: self.attempted_at,
            is_start: self.is_start,
        }
    }
}

pub struct EntryView {
    pub metadata_fingerprint: Option<Seq<char>>,
    pub session_id: Seq<char>,
    pub first_seen: Timestamp,
    pub announced: bool,
    pub last_post: Option<Timestamp>,
    pub last_attachment: Option<Seq<char>>,
    pub pending: Option<PendingView>,
}

impl View for Entry {
    type V = EntryView;

    open spec fn view(&self) -> EntryView {
        EntryView {
            metadata_fingerprint: self.metadata_fingerprint.deep_view(),
            session_id: self.session_id@,
            first_seen: self.first_seen,
            announced: self.announced,
            last_post: self.last_post,
            last_attachment: self.last_attachment.deep_view(),
            pending: self.pending.deep_view(),
        }
    }
}

impl DeepView for Entry {
    type V = EntryView;

    open spec fn deep_view(&self) -> EntryView {
        self@
    }
}

impl Clone for Entry {
    fn clone(&self) -> (r: Self)
        ensures
            r@ == self@,
    {
        Entry {
            metadata_fingerprint: clone_text(&self.metadata_fingerprint),
            session_id: self.session_id.clone(),
            first_seen: self.first_seen,
            announced: self.announced,
            last_post: self.last_post,
            last_attachment: clone_text(&self.last_attachment),
            pending: match &self.pending {
                Some(p) => Some(p.clone()),
                None => None,
            },
        }
    }
}

/// What is remembered of each target.
pub open spec fn entries_of(table: Table<Entry>) -> Map<Seq<char>, EntryView> {
    Map::new(|key: Seq<char>| table@.dom().contains(key), |key: Seq<char>| table@[key]@)
}

impl State {
    /// What is remembered of each target.
    pub open spec fn entries(&self) -> Map<Seq<char>, EntryView> {
        entries_of(self.entries)
    }

    /// What is remembered of one target.
    pub open spec fn entry(&self, key: Seq<char>) -> Option<EntryView> {
        if self.entries().dom().contains(key) {
            Some(self.entries()[key])
        } else {
            None
        }
    }

    /// The keys are in order.
    pub open spec fn wf(&self) -> bool {
        self.entries.wf()
    }

    /// Whether one state becomes another by giving a target this entry, or none.
    pub open spec fn becomes(&self, next: State, key: Seq<char>, entry: Option<EntryView>) -> bool {
        &&& next.version == self.version
        &&& next.entries() == match entry {
            Some(e) => self.entries().insert(key, e),
            None => self.entries().remove(key),
        }
    }
}

impl Default for State {
    fn default() -> (r: Self)
        ensures
            r.wf(),
            r.version == 1,
            r.entries() == Map::<Seq<char>, EntryView>::empty(),
    {
        let r = State { version: 1, entries: Table::new() };
        assert(r.entries() =~= Map::<Seq<char>, EntryView>::empty());
        r
    }
}

impl State {
    /// A copy of what is remembered of a target.
    pub fn get(&self, key: &str) -> (r: Option<Entry>)
        requires
            self.wf(),
        ensures
            r.deep_view() == self.entry(key@),
    {
        match self.entries.get(key) {
            Some(e) => Some(e.clone()),
            None => None,
        }
    }

    /// Remembers an entry of a target.
    pub fn put(&mut self, key: &str, entry: Entry)
        requires
            old(self).wf(),
        ensures
            final(self).wf(),
            old(self).becomes(*final(self), key@, Some(entry@)),
    {
        let ghost before = self.entries();
        self.entries.insert(key, entry);
        assert(self.entries() =~= before.insert(key@, entry@));
    }

    /// Forgets a target.
    pub fn forget(&mut self, key: &str)
        requires
            old(self).wf(),
        ensures
            final(self).wf(),
            old(self).becomes(*final(self), key@, None),
    {
        let ghost before = self.entries();
        self.entries.remove(key);
        assert(self.entries() =~= before.remove(key@));
    }
}

/// Why a run stops.
#[derive(Clone, Copy, Debug, PartialEq, Eq, Structural)]
pub enum EngineError {
    MalformedTarget,
    ImageChannel,
    ImageGone,
    Messages,
    Uncertain,
    Upload,
    Publication,
    Unsaved,
    NothingPending,
}

/// What is said where a run stops.
pub open spec fn engine_message(e: EngineError) -> Seq<char> {
    match e {
        EngineError::MalformedTarget => "Malformed state target"@,
        EngineError::ImageChannel => "Pending image requires its announcement channel"@,
        EngineError::ImageGone => "Pending image no longer available; ask the streamer to resend it with !sirucord"@,
        EngineError::Messages => "Discord messages unavailable"@,
        EngineError::Uncertain => "Uncertain Mastodon delivery is older than 55 minutes. Inspect the destination account, then use resolve --target GUILD:USER --posted or --retry. State preserved; automatic duplicate posting stopped."@,
        EngineError::Upload => "Image upload failed"@,
        EngineError::Publication => "Publication failed"@,
        EngineError::Unsaved => "State could not be saved; nothing more is published"@,
        EngineError::NothingPending => "No pending delivery for target"@,
    }
}

impl EngineError {
    pub fn message(&self) -> (r: &'static str)
        ensures
            r@ == engine_message(*self),
    {
        match self {
            EngineError::MalformedTarget => "Malformed state target",
            EngineError::ImageChannel => "Pending image requires its announcement channel",
            EngineError::ImageGone => "Pending image no longer available; ask the streamer to resend it with !sirucord",
            EngineError::Messages => "Discord messages unavailable",
            EngineError::Uncertain => "Uncertain Mastodon delivery is older than 55 minutes. Inspect the destination account, then use resolve --target GUILD:USER --posted or --retry. State preserved; automatic duplicate posting stopped.",
            EngineError::Upload => "Image upload failed",
            EngineError::Publication => "Publication failed",
            EngineError::Unsaved => "State could not be saved; nothing more is published",
            EngineError::NothingPending => "No pending delivery for target",
        }
    }
}

/// Whether an image is one that a person shared.
pub open spec fn is_shared_image(image: Option<AttachmentView>) -> bool {
    image is Some && image->0.source == ImageSource::DiscordAttachment
}

/// An entry whose announcement was published at `now`.
pub open spec fn completed(e: EntryView, now: Timestamp) -> EntryView {
    match e.pending {
        None => e,
        Some(p) => EntryView {
            metadata_fingerprint: if p.metadata_fingerprint is Some {
                p.metadata_fingerprint
            } else {
                e.metadata_fingerprint
            },
            announced: e.announced || p.is_start,
            last_attachment: if is_shared_image(p.attachment) {
                Some(p.attachment->0.id)
            } else {
                e.last_attachment
            },
            last_post: Some(now),
            pending: None,
            ..e
        },
    }
}

fn close(entry: Entry, now: Timestamp) -> (r: Entry)
    ensures
        r@ == completed(entry@, now),
{
    let mut e = entry;
    if let Some(p) = e.pending {
        if let Some(fingerprint) = p.metadata_fingerprint {
            e.metadata_fingerprint = Some(fingerprint);
        }
        if p.is_start {
            e.announced = true;
        }
        if let Some(image) = p.attachment {
            if image.source == ImageSource::DiscordAttachment {
                e.last_attachment = Some(image.id);
            }
        }
        e.last_post = Some(now);
        e.pending = None;
        return e;
    }
    Entry { pending: None, ..e }
}

/// Records that a target's announcement was published. Other targets are not touched.
pub fn complete(state: &mut State, key: &str, now: Timestamp)
    requires
        old(state).wf(),
        old(state).entries().dom().contains(key@),
    ensures
        final(state).wf(),
        old(state).becomes(
            *final(state),
            key@,
            Some(completed(old(state).entries()[key@], now)),
        ),
{
    if let Some(entry) = state.get(key) {
        state.put(key, close(entry, now));
    }
}

/// The longest interval between posts that can be waited for, in minutes.
pub const LONGEST_INTERVAL: u64 = 153_722_867_280_912_930;

/// Whether so many minutes have passed since the last post; any number where there was none.
pub open spec fn rested(last: Option<Timestamp>, now: Timestamp, minutes: u64) -> bool {
    last matches Some(t) ==> elapsed(t, now) >= minutes * 60
}

/// Whether so many minutes have passed since the last post.
pub fn has_rested(last: Option<Timestamp>, now: Timestamp, minutes: u64) -> (r: bool)
    requires
        minutes <= LONGEST_INTERVAL,
    ensures
        r == rested(last, now, minutes),
{
    match last {
        Some(t) => elapsed_seconds(t, now) >= (minutes as i128) * 60,
        None => true,
    }
}

/// Whether what is known of a target is to be announced: at its start, once where nothing was
/// announced of it so, and else where it changed and the interval is over.
pub open spec fn is_due(
    e: EntryView,
    fingerprint: Seq<char>,
    now: Timestamp,
    minutes: u64,
) -> bool {
    ||| !e.announced
    ||| e.metadata_fingerprint is None
    ||| e.metadata_fingerprint != Some(fingerprint) && rested(e.last_post, now, minutes)
}

pub fn metadata_due(entry: &Entry, fingerprint: &str, now: Timestamp, interval_minutes: u64) -> (r:
    bool)
    requires
        interval_minutes <= LONGEST_INTERVAL,
    ensures
        r == is_due(entry@, fingerprint@, now, interval_minutes),
{
    if !entry.announced {
        return true;
    }
    match &entry.metadata_fingerprint {
        None => true,
        Some(last) => !same(last.as_str(), fingerprint) && has_rested(
            entry.last_post,
            now,
            interval_minutes,
        ),
    }
}

/// What was announced is not announced again, however much time passes.
pub proof fn law_unchanged_is_never_due(
    e: EntryView,
    fingerprint: Seq<char>,
    now: Timestamp,
    minutes: u64,
)
    requires
        e.announced,
        e.metadata_fingerprint == Some(fingerprint),
    ensures
        !is_due(e, fingerprint, now, minutes),
{
}

/// A change within the interval waits for the interval's end.
pub proof fn law_changes_wait_for_the_interval(
    e: EntryView,
    fingerprint: Seq<char>,
    now: Timestamp,
    minutes: u64,
)
    requires
        e.announced,
        e.metadata_fingerprint is Some,
        e.last_post is Some,
        elapsed(e.last_post->0, now) < minutes * 60,
    ensures
        !is_due(e, fingerprint, now, minutes),
{
}

/// A test for the lines that may be published: none that leads into a Discord channel.
pub open spec fn no_link() -> spec_fn(Seq<char>) -> bool {
    |line: Seq<char>| !begins(line, "https://discord.com/channels/"@)
}

/// A text without the lines that lead into a Discord channel.
pub open spec fn stripped(text: Seq<char>) -> Seq<char> {
    join(lines(text).filter(no_link()), "\n"@)
}

/// A text without the lines that lead into a Discord channel.
pub fn strip_links(text: &str) -> (r: String)
    ensures
        r@ == stripped(text@),
{
    let all = lines_of(text);
    let ghost shown = lines(text@);
    let mut kept: Vec<String> = Vec::new();
    assert(kept.deep_view() =~= shown.take(0).filter(no_link())) by {
        reveal(Seq::filter);
    }
    for i in 0..all.len()
        invariant
            shown == all.deep_view(),
            kept.deep_view() == shown.take(i as int).filter(no_link()),
    {
        let ghost held = kept.deep_view();
        proof {
            lemma_filter_step(shown, no_link(), i as int);
        }
        if !starts_with(all[i].as_str(), "https://discord.com/channels/") {
            kept.push(all[i].clone());
            assert(kept.deep_view() =~= held.push(shown[i as int]));
        }
    }
    assert(shown.take(shown.len() as int) =~= shown);
    join_texts(&kept, "\n")
}

/// Whether no line of a text leads into a Discord channel.
pub open spec fn free_of_links(text: Seq<char>) -> bool {
    forall|i: int|
        #![trigger text.skip(i)]
        0 <= i <= text.len() && (i == 0 || text[i - 1] == '\n') ==> !begins(
            text.skip(i),
            "https://discord.com/channels/"@,
        )
}

/// A line holds no line feed.
proof fn lemma_lines_are_whole(text: Seq<char>)
    ensures
        forall|k: int| 0 <= k < lines(text).len() ==> !(#[trigger] lines(text)[k]).contains('\n'),
    decreases text.len(),
{
    lemma_find(text, '\n');
    let n = find(text, '\n') as int;
    if text.len() > 0 && n < text.len() {
        lemma_lines_are_whole(text.skip(n + 1));
        let head = text.take(n);
        let line = without_return(head);
        assert forall|j: int| 0 <= j < line.len() implies #[trigger] line[j] != '\n' by {
            assert(line[j] == text[j]);
        }
        assert forall|k: int| 0 <= k < lines(text).len() implies !(
        #[trigger] lines(text)[k]).contains('\n') by {
            if k > 0 {
                assert(lines(text)[k] == lines(text.skip(n + 1))[k - 1]);
            }
        }
    }
}

/// Lines that lead nowhere make a text that leads nowhere.
proof fn lemma_joined_is_free(parts: Seq<Seq<char>>)
    requires
        forall|k: int|
            0 <= k < parts.len() ==> !(#[trigger] parts[k]).contains('\n') && no_link()(parts[k]),
    ensures
        free_of_links(join(parts, "\n"@)),
    decreases parts.len(),
{
    reveal_strlit("\n");
    reveal_strlit("https://discord.com/channels/");
    let link = "https://discord.com/channels/"@;
    let text = join(parts, "\n"@);
    if parts.len() > 0 {
        let a = parts[0];
        let rest = parts.drop_first();
        let tail = join(rest, "\n"@);
        let n = a.len() as int;
        assert forall|k: int| 0 <= k < rest.len() implies !(#[trigger] rest[k]).contains('\n')
            && no_link()(rest[k]) by {
            assert(rest[k] == parts[k + 1]);
        }
        lemma_joined_is_free(rest);
        if rest.len() > 0 {
            assert(text =~= a + "\n"@ + tail);
            assert(text[n] == '\n');
        } else {
            assert(text =~= a);
        }
        assert(!a.contains('\n') && no_link()(a));
        assert forall|i: int|
            #![trigger text.skip(i)]
            0 <= i <= text.len() && (i == 0 || text[i - 1] == '\n') implies !begins(
            text.skip(i),
            link,
        ) by {
            if i == 0 {
                assert(text.skip(0) =~= text);
                if begins(text, link) {
                    if n >= link.len() {
                        assert(a.take(link.len() as int) =~= text.take(link.len() as int));
                        assert(begins(a, link));
                    } else {
                        assert(rest.len() > 0);
                        assert(text.take(link.len() as int)[n] == link[n]);
                        assert(link[n] != '\n');
                    }
                }
            } else if i <= n {
                assert(text[i - 1] == a[i - 1]);
                assert(a.contains('\n'));
            } else {
                assert(text.skip(i) =~= tail.skip(i - n - 1));
                if i > n + 1 {
                    assert(text[i - 1] == tail[i - n - 2]);
                }
            }
        }
    }
}

/// A stripped text leads into no Discord channel.
pub proof fn law_stripped_leads_nowhere(text: Seq<char>)
    ensures
        free_of_links(stripped(text)),
{
    let all = lines(text);
    let kept = all.filter(no_link());
    lemma_lines_are_whole(text);
    assert forall|k: int| 0 <= k < kept.len() implies !(#[trigger] kept[k]).contains('\n')
        && no_link()(kept[k]) by {
        all.lemma_filter_pred(no_link(), k);
        all.lemma_filter_contains_rev(no_link(), kept[k]);
        let j = choose|j: int| 0 <= j < all.len() && all[j] == kept[k];
        assert(!all[j].contains('\n'));
    }
    lemma_joined_is_free(kept);
}

/// What is published.
pub struct Post {
    pub key: String,
    pub text: String,
    pub media_id: Option<String>,
}

pub struct PostView {
    pub key: Seq<char>,
    pub text: Seq<char>,
    pub media_id: Option<Seq<char>>,
}

impl View for Post {
    type V = PostView;

    open spec fn view(&self) -> PostView {
        PostView { key: self.key@, text: self.text@, media_id: self.media_id.deep_view() }
    }
}

/// What kind of announcement a post is.
#[derive(Clone, Copy, Debug, PartialEq, Eq, Structural)]
pub enum Kind {
    Start,
    Update,
    Screenshot,
}

/// What an announcement is called in a log, which may be public: it holds nothing of its
/// content.
pub open spec fn kind_text(kind: Kind) -> Seq<char> {
    match kind {
        Kind::Start => "start announcement"@,
        Kind::Update => "stream information update"@,
        Kind::Screenshot => "screenshot"@,
    }
}

impl Kind {
    pub fn text(&self) -> (r: &'static str)
        ensures
            r@ == kind_text(*self),
    {
        match self {
            Kind::Start => "start announcement",
            Kind::Update => "stream information update",
            Kind::Screenshot => "screenshot",
        }
    }
}

/// What kind of announcement is pending.
pub open spec fn kind_of(p: PendingView) -> Kind {
    if p.is_start {
        Kind::Start
    } else if p.metadata_fingerprint is Some {
        Kind::Update
    } else {
        Kind::Screenshot
    }
}

impl Pending {
    pub fn kind(&self) -> (r: Kind)
        ensures
            r == kind_of(self@),
    {
        if self.is_start {
            Kind::Start
        } else if self.metadata_fingerprint.is_some() {
            Kind::Update
        } else {
            Kind::Screenshot
        }
    }
}

/// What has to be done outside before a run can go on.
pub enum Action {
    /// Save the state.
    Save,
    /// Read the messages of a channel.
    Fetch(String),
    /// Make a card of the participants and upload it.
    Card(Vec<Avatar>),
    /// Upload an image with a description.
    Upload(Attachment, String),
    /// Publish a post.
    Publish(Post),
    /// Tell what would be published.
    Tell(Kind),
    /// Nothing: this target is done with.
    Finish,
}

pub enum ActionView {
    Save,
    Fetch(Seq<char>),
    Card(Seq<AvatarView>),
    Upload(AttachmentView, Seq<char>),
    Publish(PostView),
    Tell(Kind),
    Finish,
}

impl Action {
    pub open spec fn view(&self) -> ActionView {
        match *self {
            Action::Save => ActionView::Save,
            Action::Fetch(channel) => ActionView::Fetch(channel@),
            Action::Card(avatars) => ActionView::Card(avatars.deep_view()),
            Action::Upload(image, text) => ActionView::Upload(image@, text@),
            Action::Publish(post) => ActionView::Publish(post@),
            Action::Tell(kind) => ActionView::Tell(kind),
            Action::Finish => ActionView::Finish,
        }
    }
}

/// What came of it.
pub enum Input {
    /// It was done, or nothing was to be done.
    Done,
    /// The messages that were read.
    Messages(Vec<Announcement>),
    /// The ID of what was uploaded.
    Media(String),
    /// It could not be done.
    Failed,
}

pub enum InputView {
    Done,
    Messages(Seq<Announcement>),
    Media(Seq<char>),
    Failed,
}

impl Input {
    pub open spec fn view(&self) -> InputView {
        match *self {
            Input::Done => InputView::Done,
            Input::Messages(messages) => InputView::Messages(messages@),
            Input::Media(id) => InputView::Media(id@),
            Input::Failed => InputView::Failed,
        }
    }
}

/// How far a delivery has come.
#[derive(Clone, Copy, Debug, PartialEq, Eq, Structural)]
pub enum Stage {
    Begin,
    /// The text may be published.
    Ready,
    /// A card is being made.
    Card,
    /// The card is uploaded and saved, or there is none.
    Illustrate,
    /// An image is being uploaded.
    Upload,
    /// All that belongs to the post is saved.
    Attempt,
    /// The intent to publish is saved.
    Publish,
    /// The post is being published.
    Publishing,
    Done,
}

/// For how long a delivery whose outcome is not known may be repeated, in seconds. The
/// destination recognises a repetition for an hour.
pub const CERTAIN_SECONDS: i128 = 3_300;

/// Whether a delivery was attempted so long ago that a repetition might be published twice.
pub open spec fn is_uncertain(p: PendingView, now: Timestamp) -> bool {
    p.attempted_at matches Some(t) && elapsed(t, now) >= CERTAIN_SECONDS
}

/// What an image is described as.
pub open spec fn image_text(image: AttachmentView) -> Seq<char> {
    match image.source {
        ImageSource::ActivityAsset => "Discord Rich Presenceで公開されているゲームの画像（配信のスクリーンショットではありません）"@,
        ImageSource::DiscordAttachment => "配信者本人が共有したDiscord配信のスクリーンショット"@,
    }
}

/// The entry with another announcement.
pub open spec fn with_pending(e: EntryView, p: PendingView) -> EntryView {
    EntryView { pending: Some(p), ..e }
}

/// What comes of a step: the entry, the next stage, and what to do.
pub type Outcome = Result<(EntryView, Stage, ActionView), EngineError>;

/// Publishes.
pub open spec fn at_publish(e: EntryView, p: PendingView) -> Outcome {
    Ok(
        (
            e,
            Stage::Publishing,
            ActionView::Publish(
                PostView { key: p.key, text: p.text, media_id: p.media_id },
            ),
        ),
    )
}

/// Saves the intent to publish, unless it is saved.
pub open spec fn at_attempt(e: EntryView, p: PendingView, now: Timestamp) -> Outcome {
    if p.attempted_at is None {
        Ok(
            (
                with_pending(e, PendingView { attempted_at: Some(now), ..p }),
                Stage::Publish,
                ActionView::Save,
            ),
        )
    } else {
        at_publish(e, p)
    }
}

/// Uploads the image, unless there is none or a card takes its place.
pub open spec fn at_illustrate(e: EntryView, p: PendingView, now: Timestamp) -> Outcome {
    if p.attachment is Some && p.media_id is None {
        Ok(
            (
                e,
                Stage::Upload,
                ActionView::Upload(p.attachment->0, image_text(p.attachment->0)),
            ),
        )
    } else {
        at_attempt(e, p, now)
    }
}

/// Stops a delivery that might be published twice, and begins any other one. A dry run takes
/// the post for published, and tells of it.
pub open spec fn at_ready(e: EntryView, p: PendingView, dry_run: bool, now: Timestamp) -> Outcome {
    if dry_run {
        Ok((completed(e, now), Stage::Done, ActionView::Tell(kind_of(p))))
    } else if is_uncertain(p, now) {
        Err(EngineError::Uncertain)
    } else if p.avatars.len() > 0 && p.media_id is None {
        Ok((e, Stage::Card, ActionView::Card(p.avatars)))
    } else {
        at_illustrate(e, p, now)
    }
}

/// Strips the text of what may not be published.
pub open spec fn at_begin(e: EntryView, p: PendingView, dry_run: bool, now: Timestamp) -> Outcome {
    let clean = PendingView { text: stripped(p.text), ..p };
    if stripped(p.text) == p.text {
        at_ready(e, p, dry_run, now)
    } else if dry_run {
        at_ready(with_pending(e, clean), clean, dry_run, now)
    } else {
        Ok((with_pending(e, clean), Stage::Ready, ActionView::Save))
    }
}

/// Whether a stage is entered when the entry was saved.
pub open spec fn follows_save(stage: Stage) -> bool {
    !(stage == Stage::Card || stage == Stage::Upload || stage == Stage::Publishing)
}

/// Whether a delivery may not go on, because what had to be saved was not. A dry run saves
/// nothing.
pub open spec fn is_unsaved(dry_run: bool, stage: Stage, input: InputView) -> bool {
    !dry_run && follows_save(stage) && !(input is Done)
}

pub fn lacks_save(dry_run: bool, stage: Stage, input: &Input) -> (r: bool)
    ensures
        r == is_unsaved(dry_run, stage, input@),
{
    let done = match input {
        Input::Done => true,
        _ => false,
    };
    match stage {
        Stage::Card | Stage::Upload | Stage::Publishing => false,
        _ => !dry_run && !done,
    }
}

/// A step of a delivery.
pub open spec fn delivery(
    e: EntryView,
    dry_run: bool,
    stage: Stage,
    input: InputView,
    now: Timestamp,
) -> Outcome {
    if is_unsaved(dry_run, stage, input) {
        Err(EngineError::Unsaved)
    } else {
        match e.pending {
            None => Ok((e, Stage::Done, ActionView::Finish)),
            Some(p) => match stage {
                Stage::Begin => at_begin(e, p, dry_run, now),
                Stage::Ready => at_ready(e, p, dry_run, now),
                Stage::Card => match input {
                    InputView::Media(id) => Ok(
                        (
                            with_pending(e, PendingView { media_id: Some(id), ..p }),
                            Stage::Illustrate,
                            ActionView::Save,
                        ),
                    ),
                    _ => Err(EngineError::Upload),
                },
                Stage::Illustrate => at_illustrate(e, p, now),
                Stage::Upload => match input {
                    InputView::Media(id) => Ok(
                        (
                            with_pending(e, PendingView { media_id: Some(id), ..p }),
                            Stage::Attempt,
                            ActionView::Save,
                        ),
                    ),
                    // A decoration must not keep the content from being delivered.
                    _ => if is_shared_image(p.attachment) {
                        Err(EngineError::Upload)
                    } else {
                        Ok(
                            (
                                with_pending(e, PendingView { attachment: None, ..p }),
                                Stage::Attempt,
                                ActionView::Save,
                            ),
                        )
                    },
                },
                Stage::Attempt => at_attempt(e, p, now),
                Stage::Publish => at_publish(e, p),
                Stage::Publishing => match input {
                    InputView::Done => Ok((completed(e, now), Stage::Done, ActionView::Save)),
                    _ => Err(EngineError::Publication),
                },
                Stage::Done => Ok((e, Stage::Done, ActionView::Finish)),
            },
        }
    }
}

fn do_publish(entry: Entry, p: Pending) -> (r: Result<(Entry, Stage, Action), EngineError>)
    requires
        entry.pending is None,
    ensures
        r matches Ok((e, stage, action)) && at_publish(with_pending(entry@, p@), p@) == Ok::<
            (EntryView, Stage, ActionView),
            EngineError,
        >((e@, stage, action@)),
{
    let post = Post {
        key: p.key.clone(),
        text: p.text.clone(),
        media_id: clone_text(&p.media_id),
    };
    Ok((Entry { pending: Some(p), ..entry }, Stage::Publishing, Action::Publish(post)))
}

fn do_attempt(entry: Entry, p: Pending, now: Timestamp) -> (r: Result<
    (Entry, Stage, Action),
    EngineError,
>)
    requires
        entry.pending is None,
    ensures
        r matches Ok((e, stage, action)) && at_attempt(
            with_pending(entry@, p@),
            p@,
            now,
        ) == Ok::<(EntryView, Stage, ActionView), EngineError>((e@, stage, action@)),
{
    if p.attempted_at.is_none() {
        let mut p = p;
        p.attempted_at = Some(now);
        return Ok((Entry { pending: Some(p), ..entry }, Stage::Publish, Action::Save));
    }
    do_publish(entry, p)
}

fn do_illustrate(entry: Entry, p: Pending, now: Timestamp) -> (r: Result<
    (Entry, Stage, Action),
    EngineError,
>)
    requires
        entry.pending is None,
    ensures
        r matches Ok((e, stage, action)) && at_illustrate(
            with_pending(entry@, p@),
            p@,
            now,
        ) == Ok::<(EntryView, Stage, ActionView), EngineError>((e@, stage, action@)),
{
    if p.media_id.is_none() {
        if let Some(image) = clone_image(&p.attachment) {
            let text = match image.source {
                ImageSource::ActivityAsset => "Discord Rich Presenceで公開されているゲームの画像（配信のスクリーンショットではありません）",
                ImageSource::DiscordAttachment => "配信者本人が共有したDiscord配信のスクリーンショット",
            };
            return Ok(
                (
                    Entry { pending: Some(p), ..entry },
                    Stage::Upload,
                    Action::Upload(image, text.to_owned()),
                ),
            );
        }
    }
    do_attempt(entry, p, now)
}

fn do_ready(entry: Entry, p: Pending, dry_run: bool, now: Timestamp) -> (r: Result<
    (Entry, Stage, Action),
    EngineError,
>)
    requires
        entry.pending is None,
    ensures
        match r {
            Ok((e, stage, action)) => at_ready(
                with_pending(entry@, p@),
                p@,
                dry_run,
                now,
            ) == Ok::<(EntryView, Stage, ActionView), EngineError>((e@, stage, action@)),
            Err(e) => at_ready(with_pending(entry@, p@), p@, dry_run, now) == Err::<
                (EntryView, Stage, ActionView),
                EngineError,
            >(e),
        },
{
    if dry_run {
        let kind = p.kind();
        let whole = Entry { pending: Some(p), ..entry };
        return Ok((close(whole, now), Stage::Done, Action::Tell(kind)));
    }
    if let Some(t) = p.attempted_at {
        if elapsed_seconds(t, now) >= CERTAIN_SECONDS {
            return Err(EngineError::Uncertain);
        }
    }
    if p.avatars.len() > 0 && p.media_id.is_none() {
        let avatars = clone_avatars(&p.avatars);
        return Ok((Entry { pending: Some(p), ..entry }, Stage::Card, Action::Card(avatars)));
    }
    do_illustrate(entry, p, now)
}

fn do_begin(entry: Entry, p: Pending, dry_run: bool, now: Timestamp) -> (r: Result<
    (Entry, Stage, Action),
    EngineError,
>)
    requires
        entry.pending is None,
    ensures
        match r {
            Ok((e, stage, action)) => at_begin(
                with_pending(entry@, p@),
                p@,
                dry_run,
                now,
            ) == Ok::<(EntryView, Stage, ActionView), EngineError>((e@, stage, action@)),
            Err(e) => at_begin(with_pending(entry@, p@), p@, dry_run, now) == Err::<
                (EntryView, Stage, ActionView),
                EngineError,
            >(e),
        },
{
    let text = strip_links(p.text.as_str());
    if same(text.as_str(), p.text.as_str()) {
        return do_ready(entry, p, dry_run, now);
    }
    let mut p = p;
    p.text = text;
    if dry_run {
        return do_ready(entry, p, dry_run, now);
    }
    Ok((Entry { pending: Some(p), ..entry }, Stage::Ready, Action::Save))
}

/// A step of the delivery of an entry's announcement.
pub fn advance(entry: Entry, dry_run: bool, stage: Stage, input: Input, now: Timestamp) -> (r: Result<
    (Entry, Stage, Action),
    EngineError,
>)
    ensures
        match r {
            Ok((e, next, action)) => delivery(entry@, dry_run, stage, input@, now) == Ok::<
                (EntryView, Stage, ActionView),
                EngineError,
            >((e@, next, action@)),
            Err(e) => delivery(entry@, dry_run, stage, input@, now) == Err::<
                (EntryView, Stage, ActionView),
                EngineError,
            >(e),
        },
{
    if lacks_save(dry_run, stage, &input) {
        return Err(EngineError::Unsaved);
    }
    let Entry {
        metadata_fingerprint,
        session_id,
        first_seen,
        announced,
        last_post,
        last_attachment,
        pending,
    } = entry;
    let bare = Entry {
        metadata_fingerprint,
        session_id,
        first_seen,
        announced,
        last_post,
        last_attachment,
        pending: None,
    };
    let mut p = match pending {
        Some(p) => p,
        None => return Ok((bare, Stage::Done, Action::Finish)),
    };
    assert(entry@ == with_pending(bare@, p@));
    match stage {
        Stage::Begin => do_begin(bare, p, dry_run, now),
        Stage::Ready => do_ready(bare, p, dry_run, now),
        Stage::Card => match input {
            Input::Media(id) => {
                p.media_id = Some(id);
                Ok((Entry { pending: Some(p), ..bare }, Stage::Illustrate, Action::Save))
            },
            _ => Err(EngineError::Upload),
        },
        Stage::Illustrate => do_illustrate(bare, p, now),
        Stage::Upload => match input {
            Input::Media(id) => {
                p.media_id = Some(id);
                Ok((Entry { pending: Some(p), ..bare }, Stage::Attempt, Action::Save))
            },
            _ => {
                let shared = match &p.attachment {
                    Some(image) => image.source == ImageSource::DiscordAttachment,
                    None => false,
                };
                if shared {
                    Err(EngineError::Upload)
                } else {
                    p.attachment = None;
                    Ok((Entry { pending: Some(p), ..bare }, Stage::Attempt, Action::Save))
                }
            },
        },
        Stage::Attempt => do_attempt(bare, p, now),
        Stage::Publish => do_publish(bare, p),
        Stage::Publishing => match input {
            Input::Done => {
                let whole = Entry { pending: Some(p), ..bare };
                Ok((close(whole, now), Stage::Done, Action::Save))
            },
            _ => Err(EngineError::Publication),
        },
        Stage::Done => Ok((Entry { pending: Some(p), ..bare }, Stage::Done, Action::Finish)),
    }
}

/// The whole service: what it watches, and where it reads, posts and remembers.
pub struct App {
    pub config: Config,
    pub discord: Discord,
    pub mastodon: Mastodon,
    pub store: Store,
}

impl App {
    /// A step of the delivery of a target's announcement. Nothing else of the state is touched,
    /// and nothing at all by an error.
    pub fn deliver(
        state: &mut State,
        key: &str,
        dry_run: bool,
        stage: Stage,
        input: Input,
        now: Timestamp,
    ) -> (r: Result<(Stage, Action), EngineError>)
        requires
            old(state).wf(),
        ensures
            final(state).wf(),
            match (old(state).entry(key@), r) {
                (None, Ok((next, action))) => *final(state) == *old(state) && next == Stage::Done
                    && action@ is Finish && !is_unsaved(dry_run, stage, input@),
                (None, Err(error)) => *final(state) == *old(state) && error == EngineError::Unsaved
                    && is_unsaved(dry_run, stage, input@),
                (Some(e), Ok((next, action))) => {
                    let outcome = delivery(e, dry_run, stage, input@, now);
                    &&& outcome is Ok
                    &&& (outcome->Ok_0.1, outcome->Ok_0.2) == (next, action@)
                    &&& old(state).becomes(*final(state), key@, Some(outcome->Ok_0.0))
                },
                (Some(e), Err(error)) => {
                    &&& delivery(e, dry_run, stage, input@, now) == Err::<
                        (EntryView, Stage, ActionView),
                        EngineError,
                    >(error)
                    &&& *final(state) == *old(state)
                },
            },
    {
        match state.get(key) {
            None => if lacks_save(dry_run, stage, &input) {
                Err(EngineError::Unsaved)
            } else {
                Ok((Stage::Done, Action::Finish))
            },
            Some(entry) => match advance(entry, dry_run, stage, input, now) {
                Ok((e, next, action)) => {
                    state.put(key, e);
                    Ok((next, action))
                },
                Err(e) => Err(e),
            },
        }
    }
}

/// What holds of an entry at a stage of its delivery: the text leads nowhere once the delivery
/// has begun, the intent is saved before the publication, and a dry run goes no further than
/// the beginning.
pub open spec fn stage_holds(e: EntryView, dry_run: bool, stage: Stage) -> bool {
    &&& dry_run ==> stage == Stage::Begin || stage == Stage::Done
    &&& e.pending matches Some(p) ==> {
        &&& stage != Stage::Begin && stage != Stage::Done ==> free_of_links(p.text)
        &&& stage == Stage::Publish || stage == Stage::Publishing ==> p.attempted_at is Some
    }
}

/// Each step keeps what holds at its stage.
pub proof fn law_delivery_stays_sound(
    e: EntryView,
    dry_run: bool,
    stage: Stage,
    input: InputView,
    now: Timestamp,
)
    requires
        stage_holds(e, dry_run, stage),
        delivery(e, dry_run, stage, input, now) is Ok,
    ensures
        ({
            let (next, to, action) = delivery(e, dry_run, stage, input, now)->Ok_0;
            stage_holds(next, dry_run, to)
        }),
{
    if let Some(p) = e.pending {
        law_stripped_leads_nowhere(p.text);
    }
}

/// A post is published only as it was saved, with the intent to publish it, and it leads into
/// no Discord channel.
pub proof fn law_intent_is_saved_before_publication(
    e: EntryView,
    dry_run: bool,
    stage: Stage,
    input: InputView,
    now: Timestamp,
)
    requires
        stage_holds(e, dry_run, stage),
        delivery(e, dry_run, stage, input, now) is Ok,
        delivery(e, dry_run, stage, input, now)->Ok_0.2 is Publish,
    ensures
        ({
            let (next, to, action) = delivery(e, dry_run, stage, input, now)->Ok_0;
            let post = action->Publish_0;
            &&& next == e
            &&& e.pending is Some
            &&& e.pending->0.attempted_at is Some
            &&& post == (PostView {
                key: e.pending->0.key,
                text: e.pending->0.text,
                media_id: e.pending->0.media_id,
            })
            &&& free_of_links(post.text)
        }),
{
    if let Some(p) = e.pending {
        law_stripped_leads_nowhere(p.text);
    }
}

/// A step that changes an entry has it saved before anything else is done.
pub proof fn law_changes_are_saved_at_once(
    e: EntryView,
    stage: Stage,
    input: InputView,
    now: Timestamp,
)
    requires
        delivery(e, false, stage, input, now) is Ok,
    ensures
        ({
            let (next, to, action) = delivery(e, false, stage, input, now)->Ok_0;
            next == e || action is Save
        }),
{
}

/// Whether an action leaves everything as it is.
pub open spec fn is_quiet(action: ActionView) -> bool {
    action is Tell || action is Finish
}

/// A save that was not done ends a delivery: nothing is published behind it.
pub proof fn law_failed_save_ends_a_delivery(
    e: EntryView,
    stage: Stage,
    input: InputView,
    now: Timestamp,
    after: InputView,
    later: Timestamp,
)
    requires
        delivery(e, false, stage, input, now) is Ok,
        delivery(e, false, stage, input, now)->Ok_0.2 is Save,
        !(after is Done),
    ensures
        ({
            let (next, to, action) = delivery(e, false, stage, input, now)->Ok_0;
            delivery(next, false, to, after, later) == Err::<
                (EntryView, Stage, ActionView),
                EngineError,
            >(EngineError::Unsaved)
        }),
{
}

/// A dry run neither saves nor uploads nor publishes. It tells once what is pending.
pub proof fn law_dry_delivery_does_nothing(e: EntryView, stage: Stage, input: InputView, now: Timestamp)
    requires
        stage_holds(e, true, stage),
    ensures
        delivery(e, true, stage, input, now) is Ok,
        is_quiet(delivery(e, true, stage, input, now)->Ok_0.2),
        delivery(e, true, stage, input, now)->Ok_0.2 is Tell <==> stage == Stage::Begin
            && e.pending is Some,
        delivery(e, true, stage, input, now)->Ok_0.2 matches ActionView::Tell(kind) ==> kind
            == kind_of(e.pending->0) && delivery(e, true, stage, input, now)->Ok_0.0.pending is None,
{
}

/// As long as an announcement is pending, it keeps its key: a repetition is recognised.
pub proof fn law_pending_keeps_its_key(
    e: EntryView,
    dry_run: bool,
    stage: Stage,
    input: InputView,
    now: Timestamp,
)
    requires
        delivery(e, dry_run, stage, input, now) is Ok,
        delivery(e, dry_run, stage, input, now)->Ok_0.0.pending is Some,
    ensures
        e.pending is Some,
        delivery(e, dry_run, stage, input, now)->Ok_0.0.pending->0.key == e.pending->0.key,
{
}

/// How far a stage is from the beginning.
pub open spec fn rank(stage: Stage) -> nat {
    match stage {
        Stage::Begin => 0,
        Stage::Ready => 1,
        Stage::Card => 2,
        Stage::Illustrate => 3,
        Stage::Upload => 4,
        Stage::Attempt => 5,
        Stage::Publish => 6,
        Stage::Publishing => 7,
        Stage::Done => 8,
    }
}

/// Every step of a delivery goes forward, so each comes to an end, and it publishes once at
/// most: behind a publication there is nothing but the end.
pub proof fn law_delivery_goes_forward(
    e: EntryView,
    dry_run: bool,
    stage: Stage,
    input: InputView,
    now: Timestamp,
)
    requires
        delivery(e, dry_run, stage, input, now) is Ok,
    ensures
        ({
            let (next, to, action) = delivery(e, dry_run, stage, input, now)->Ok_0;
            &&& rank(to) > rank(stage) || action is Finish
            &&& action is Publish <==> to == Stage::Publishing
            &&& stage == Stage::Publishing ==> to == Stage::Done
        }),
{
}

/// A delivery whose outcome has been unknown for too long is not repeated.
pub proof fn law_uncertain_delivery_stops(e: EntryView, stage: Stage, input: InputView, now: Timestamp)
    requires
        e.pending is Some,
        input is Done,
        is_uncertain(e.pending->0, now),
        stage == Stage::Ready || stage == Stage::Begin && stripped(e.pending->0.text)
            == e.pending->0.text,
    ensures
        delivery(e, false, stage, input, now) == Err::<(EntryView, Stage, ActionView), EngineError>(
            EngineError::Uncertain,
        ),
{
}

/// What was uploaded is not uploaded again.
pub proof fn law_uploads_happen_once(
    e: EntryView,
    dry_run: bool,
    stage: Stage,
    input: InputView,
    now: Timestamp,
)
    requires
        e.pending is Some,
        e.pending->0.media_id is Some,
        delivery(e, dry_run, stage, input, now) is Ok,
    ensures
        !(delivery(e, dry_run, stage, input, now)->Ok_0.2 is Card),
        !(delivery(e, dry_run, stage, input, now)->Ok_0.2 is Upload),
{
}

/// What was published is not due again as long as it does not change.
pub proof fn law_published_is_not_due_again(
    e: EntryView,
    now: Timestamp,
    later: Timestamp,
    minutes: u64,
)
    requires
        e.pending is Some,
        e.pending->0.metadata_fingerprint is Some,
        e.announced || e.pending->0.is_start,
    ensures
        !is_due(completed(e, now), e.pending->0.metadata_fingerprint->0, later, minutes),
{
}

} // verus!
