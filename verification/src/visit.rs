//! One target at a time: what its state calls for, and which step comes next.
use vstd::prelude::*;
use vstd::string::*;

use crate::activity::{
    fingerprint_of, first_artwork, post_text, StreamContext, StreamContextView,
};
use crate::avatars::{clone_avatars, AvatarView};
use crate::config::{Streamer, StreamerView};
use crate::discord::{
    clean, cleaned, screenshot, screenshot_of, title, title_of, Announcement, Voice,
    VoiceView,
};
use crate::engine::{
    advance, delivery, follows_save, has_rested, is_due, is_quiet, is_shared_image, is_unsaved,
    lacks_save, law_changes_are_saved_at_once,
    law_delivery_stays_sound, law_dry_delivery_does_nothing,
    law_intent_is_saved_before_publication, metadata_due, rested, stage_holds, with_pending, Action,
    ActionView, App, EngineError, Entry, EntryView, Input, InputView, Kind,
    Pending, PendingView, Stage, State, LONGEST_INTERVAL,
};
use crate::keys::{fresh_key, is_uuid};
use crate::text::same;
use crate::time::Timestamp;

verus! {

/// A target as it stands: nobody in a channel where there is no voice.
pub struct Observed {
    pub streamer: Streamer,
    pub voice: Option<Voice>,
}

pub struct ObservedView {
    pub streamer: StreamerView,
    pub voice: Option<VoiceView>,
}

impl View for Observed {
    type V = ObservedView;

    open spec fn view(&self) -> ObservedView {
        ObservedView { streamer: self.streamer@, voice: self.voice.deep_view() }
    }
}

impl DeepView for Observed {
    type V = ObservedView;

    open spec fn deep_view(&self) -> ObservedView {
        self@
    }
}

impl Clone for Observed {
    fn clone(&self) -> (r: Self)
        ensures
            r@ == self@,
    {
        Observed {
            streamer: self.streamer.clone(),
            voice: match &self.voice {
                Some(voice) => Some(voice.clone()),
                None => None,
            },
        }
    }
}

/// How a run goes about its targets.
#[derive(Clone, Copy)]
pub struct Rules {
    /// Whether the run only reads.
    pub dry_run: bool,
    pub screenshot_minutes: u64,
    pub activity_minutes: u64,
}

impl Rules {
    /// The intervals can be waited for.
    pub open spec fn wf(&self) -> bool {
        self.screenshot_minutes <= LONGEST_INTERVAL && self.activity_minutes <= LONGEST_INTERVAL
    }
}

/// How far a target has come.
#[derive(Clone, Copy)]
pub enum Phase {
    Begin,
    /// The messages with a pending image are being read.
    Refresh,
    /// What was pending before is being delivered.
    Earlier(Stage),
    /// The messages with a caption are being read, since this instant.
    Compose(Timestamp),
    /// What is new is being delivered.
    Own(Stage),
    Over,
}

/// What comes of a step: the entry, if there is one, the next phase, and what to do.
pub type Progress = Result<(Option<EntryView>, Phase, ActionView), EngineError>;

/// The entry of a target that is seen for the first time.
pub open spec fn fresh_entry(session: Seq<char>, now: Timestamp) -> EntryView {
    EntryView {
        metadata_fingerprint: None,
        session_id: session,
        first_seen: now,
        announced: false,
        last_post: None,
        last_attachment: None,
        pending: None,
    }
}

/// The entry of a target with this session.
pub open spec fn current_entry(e: Option<EntryView>, session: Seq<char>, now: Timestamp) -> EntryView {
    if e is Some && e->0.session_id == session {
        e->0
    } else {
        fresh_entry(session, now)
    }
}

/// The announcement of what is known of a call.
pub open spec fn metadata_post(
    context: StreamContextView,
    name: Seq<char>,
    start: bool,
    fingerprint: Seq<char>,
    key: Seq<char>,
) -> PendingView {
    PendingView {
        shared_message: false,
        avatars: if context.participants >= 2 {
            context.avatars
        } else {
            Seq::empty()
        },
        metadata_fingerprint: Some(fingerprint),
        key,
        text: post_text(context, name, start),
        attachment: first_artwork(context.activities),
        media_id: None,
        attempted_at: None,
        is_start: start,
    }
}

/// What the announcement of a stream says.
pub open spec fn stream_text(name: Seq<char>, title: Seq<char>, start: bool) -> Seq<char> {
    if start {
        "🔴 "@ + cleaned(name, 80) + " さんのDiscord配信開始を検知しました\n内容："@ + title
    } else {
        "📷 "@ + cleaned(name, 80) + " さんから配信スクリーンショット\n内容："@ + title
    }
}

/// The announcement of a stream that has a caption, or of an image of it; nothing where there
/// is no new image of a stream that was announced.
pub open spec fn stream_post(
    e: EntryView,
    s: StreamerView,
    messages: Seq<Announcement>,
    now: Timestamp,
    key: Seq<char>,
) -> Option<PendingView> {
    let start = !e.announced;
    let title = match title_of(messages, s.user_id, now) {
        Some(text) => text,
        None => cleaned(s.default_title, 200),
    };
    let image = if start {
        None
    } else {
        screenshot_of(messages, s.user_id, e.first_seen, now, e.last_attachment)
    };
    if !start && image is None {
        None
    } else {
        Some(
            PendingView {
                shared_message: false,
                avatars: Seq::empty(),
                metadata_fingerprint: None,
                key,
                text: stream_text(s.display_name, title, start),
                attachment: image,
                media_id: None,
                attempted_at: None,
                is_start: start,
            },
        )
    }
}

/// Delivers what is new.
pub open spec fn own_step(
    e: EntryView,
    dry_run: bool,
    stage: Stage,
    input: InputView,
    now: Timestamp,
) -> Progress {
    match delivery(e, dry_run, stage, input, now) {
        Err(error) => Err(error),
        Ok((next, to, action)) => if action is Finish {
            Ok((Some(next), Phase::Over, ActionView::Finish))
        } else {
            Ok((Some(next), Phase::Own(to), action))
        },
    }
}

/// Saves a new announcement before it is delivered. A dry run delivers it at once.
pub open spec fn propose(e: EntryView, p: PendingView, dry_run: bool, now: Timestamp) -> Progress {
    if dry_run {
        own_step(with_pending(e, p), dry_run, Stage::Begin, InputView::Done, now)
    } else {
        Ok((Some(with_pending(e, p)), Phase::Own(Stage::Begin), ActionView::Save))
    }
}

/// Announces a stream, given the messages of its announcement channel.
pub open spec fn compose(
    e: EntryView,
    t: ObservedView,
    dry_run: bool,
    messages: Seq<Announcement>,
    seen: Timestamp,
    now: Timestamp,
    key: Seq<char>,
) -> Progress {
    match stream_post(e, t.streamer, messages, seen, key) {
        None => Ok((Some(e), Phase::Over, ActionView::Finish)),
        Some(p) => propose(e, p, dry_run, now),
    }
}

/// Looks at how a target stands. One that is gone is forgotten, one that is new gets an entry,
/// and what is due is announced.
pub open spec fn look(
    e: Option<EntryView>,
    t: ObservedView,
    rules: Rules,
    now: Timestamp,
    fingerprint: Seq<char>,
    key: Seq<char>,
) -> Progress {
    match t.voice {
        None => if !rules.dry_run && e is Some {
            Ok((None, Phase::Over, ActionView::Save))
        } else {
            Ok((e, Phase::Over, ActionView::Finish))
        },
        Some(voice) => {
            let entry = current_entry(e, voice.session_id, now);
            match voice.context {
                Some(context) => if is_due(entry, fingerprint, now, rules.activity_minutes) {
                    propose(
                        entry,
                        metadata_post(
                            context,
                            t.streamer.display_name,
                            !entry.announced,
                            fingerprint,
                            key,
                        ),
                        rules.dry_run,
                        now,
                    )
                } else {
                    Ok((Some(entry), Phase::Over, ActionView::Finish))
                },
                None => if entry.announced && !(t.streamer.screenshots && rested(
                    entry.last_post,
                    now,
                    rules.screenshot_minutes,
                )) {
                    Ok((Some(entry), Phase::Over, ActionView::Finish))
                } else {
                    match t.streamer.announcement_channel_id {
                        Some(channel) => Ok(
                            (Some(entry), Phase::Compose(now), ActionView::Fetch(channel)),
                        ),
                        None => compose(entry, t, rules.dry_run, Seq::empty(), now, now, key),
                    }
                },
            }
        },
    }
}

/// Delivers what was pending before, then looks at how the target stands.
pub open spec fn earlier_step(
    e: EntryView,
    t: ObservedView,
    rules: Rules,
    stage: Stage,
    input: InputView,
    now: Timestamp,
    fingerprint: Seq<char>,
    key: Seq<char>,
) -> Progress {
    match delivery(e, rules.dry_run, stage, input, now) {
        Err(error) => Err(error),
        Ok((next, to, action)) => if action is Finish {
            look(Some(next), t, rules, now, fingerprint, key)
        } else {
            Ok((Some(next), Phase::Earlier(to), action))
        },
    }
}

/// Begins with what is pending, even where the target is gone: what was detected is told. The
/// address of a shared image expires, so it is read anew before it is used.
pub open spec fn start(
    e: Option<EntryView>,
    t: ObservedView,
    rules: Rules,
    now: Timestamp,
    fingerprint: Seq<char>,
    key: Seq<char>,
) -> Progress {
    if e is Some && e->0.pending is Some {
        let p = e->0.pending->0;
        if is_shared_image(p.attachment) && p.media_id is None && !rules.dry_run {
            match t.streamer.announcement_channel_id {
                None => Err(EngineError::ImageChannel),
                Some(channel) => Ok((e, Phase::Refresh, ActionView::Fetch(channel))),
            }
        } else {
            earlier_step(
                e->0,
                t,
                rules,
                Stage::Begin,
                InputView::Done,
                now,
                fingerprint,
                key,
            )
        }
    } else {
        look(e, t, rules, now, fingerprint, key)
    }
}

/// Takes the image of a pending announcement from the messages that were read.
pub open spec fn refresh(
    e: EntryView,
    t: ObservedView,
    messages: Seq<Announcement>,
    now: Timestamp,
) -> Progress {
    match screenshot_of(messages, t.streamer.user_id, e.first_seen, now, e.last_attachment) {
        None => Err(EngineError::ImageGone),
        Some(image) => Ok(
            (
                Some(with_pending(e, PendingView { attachment: Some(image), ..e.pending->0 })),
                Phase::Earlier(Stage::Begin),
                ActionView::Save,
            ),
        ),
    }
}

/// Nothing to deliver.
pub open spec fn idle(dry_run: bool, stage: Stage, input: InputView) -> Progress {
    if is_unsaved(dry_run, stage, input) {
        Err(EngineError::Unsaved)
    } else {
        Ok((None, Phase::Over, ActionView::Finish))
    }
}

/// A step of a target. Its arguments are the target's entry, the target, the rules, how far it
/// has come, what came of the last action, the time, the identity of what is known of the
/// target, and a key for a new announcement.
pub open spec fn visit_result(
    e: Option<EntryView>,
    t: ObservedView,
    rules: Rules,
    phase: Phase,
    input: InputView,
    now: Timestamp,
    fingerprint: Seq<char>,
    key: Seq<char>,
) -> Progress {
    match phase {
        Phase::Begin => start(e, t, rules, now, fingerprint, key),
        Phase::Refresh => if e is Some && e->0.pending is Some {
            match input {
                InputView::Messages(messages) => refresh(e->0, t, messages, now),
                _ => Err(EngineError::Messages),
            }
        } else {
            Ok((e, Phase::Over, ActionView::Finish))
        },
        Phase::Earlier(stage) => match e {
            Some(entry) => earlier_step(
                entry,
                t,
                rules,
                stage,
                input,
                now,
                fingerprint,
                key,
            ),
            None => idle(rules.dry_run, stage, input),
        },
        Phase::Compose(seen) => match e {
            Some(entry) => match input {
                InputView::Messages(messages) => compose(
                    entry,
                    t,
                    rules.dry_run,
                    messages,
                    seen,
                    now,
                    key,
                ),
                _ => Err(EngineError::Messages),
            },
            None => Ok((e, Phase::Over, ActionView::Finish)),
        },
        Phase::Own(stage) => match e {
            Some(entry) => own_step(entry, rules.dry_run, stage, input, now),
            None => idle(rules.dry_run, stage, input),
        },
        Phase::Over => if rules.dry_run || input is Done {
            Ok((e, Phase::Over, ActionView::Finish))
        } else {
            Err(EngineError::Unsaved)
        },
    }
}

/// Whether what a function returned is what a step comes to.
pub open spec fn agrees(
    r: Result<(Option<Entry>, Phase, Action), EngineError>,
    wanted: Progress,
) -> bool {
    match r {
        Ok((e, phase, action)) => wanted == Ok::<
            (Option<EntryView>, Phase, ActionView),
            EngineError,
        >((e.deep_view(), phase, action@)),
        Err(error) => wanted == Err::<(Option<EntryView>, Phase, ActionView), EngineError>(error),
    }
}

fn do_own(entry: Entry, dry_run: bool, stage: Stage, input: Input, now: Timestamp) -> (r: Result<
    (Option<Entry>, Phase, Action),
    EngineError,
>)
    ensures
        agrees(r, own_step(entry@, dry_run, stage, input@, now)),
{
    match advance(entry, dry_run, stage, input, now) {
        Err(error) => Err(error),
        Ok((next, to, action)) => match action {
            Action::Finish => Ok((Some(next), Phase::Over, Action::Finish)),
            other => Ok((Some(next), Phase::Own(to), other)),
        },
    }
}

fn do_propose(entry: Entry, p: Pending, dry_run: bool, now: Timestamp) -> (r: Result<
    (Option<Entry>, Phase, Action),
    EngineError,
>)
    ensures
        agrees(r, propose(entry@, p@, dry_run, now)),
{
    let mut entry = entry;
    entry.pending = Some(p);
    if dry_run {
        return do_own(entry, dry_run, Stage::Begin, Input::Done, now);
    }
    Ok((Some(entry), Phase::Own(Stage::Begin), Action::Save))
}

/// The announcement of what is known of a call.
pub fn announce(
    context: &StreamContext,
    name: &str,
    start: bool,
    fingerprint: &str,
    key: &str,
) -> (r: Pending)
    ensures
        r@ == metadata_post(context@, name@, start, fingerprint@, key@),
{
    let avatars = if context.participants >= 2 {
        clone_avatars(&context.avatars)
    } else {
        Vec::new()
    };
    assert(context.participants < 2 ==> avatars.deep_view() =~= Seq::<AvatarView>::empty());
    Pending {
        shared_message: false,
        avatars,
        metadata_fingerprint: Some(fingerprint.to_owned()),
        key: key.to_owned(),
        text: context.render(name, start),
        attachment: context.artwork(),
        media_id: None,
        attempted_at: None,
        is_start: start,
    }
}

/// The announcement of a stream, or of an image of it.
pub fn report(
    entry: &Entry,
    s: &Streamer,
    messages: &[Announcement],
    now: Timestamp,
    key: &str,
) -> (r: Option<Pending>)
    ensures
        r.deep_view() == stream_post(entry@, s@, messages@, now, key@),
{
    let start = !entry.announced;
    let caption = match title(messages, s.user_id.as_str(), now) {
        Some(text) => text,
        None => clean(s.default_title.as_str(), 200),
    };
    let image = if start {
        None
    } else {
        let used = match &entry.last_attachment {
            Some(id) => Some(id.as_str()),
            None => None,
        };
        screenshot(messages, s.user_id.as_str(), entry.first_seen, now, used)
    };
    if !start && image.is_none() {
        return None;
    }
    let name = clean(s.display_name.as_str(), 80);
    let mut text = String::new();
    if start {
        text.append("🔴 ");
        text.append(name.as_str());
        text.append(" さんのDiscord配信開始を検知しました\n内容：");
    } else {
        text.append("📷 ");
        text.append(name.as_str());
        text.append(" さんから配信スクリーンショット\n内容：");
    }
    text.append(caption.as_str());
    assert(text@ =~= stream_text(s@.display_name, caption@, start));
    let p = Pending {
        shared_message: false,
        avatars: Vec::new(),
        metadata_fingerprint: None,
        key: key.to_owned(),
        text,
        attachment: image,
        media_id: None,
        attempted_at: None,
        is_start: start,
    };
    assert(p@.avatars =~= Seq::<AvatarView>::empty());
    Some(p)
}

fn do_compose(
    entry: Entry,
    t: &Observed,
    dry_run: bool,
    messages: &[Announcement],
    seen: Timestamp,
    now: Timestamp,
    key: &str,
) -> (r: Result<(Option<Entry>, Phase, Action), EngineError>)
    ensures
        agrees(r, compose(entry@, t@, dry_run, messages@, seen, now, key@)),
{
    match report(&entry, &t.streamer, messages, seen, key) {
        None => Ok((Some(entry), Phase::Over, Action::Finish)),
        Some(p) => do_propose(entry, p, dry_run, now),
    }
}

fn do_look(
    e: Option<Entry>,
    t: &Observed,
    rules: Rules,
    now: Timestamp,
    fingerprint: &str,
    key: &str,
) -> (r: Result<(Option<Entry>, Phase, Action), EngineError>)
    requires
        rules.wf(),
    ensures
        agrees(r, look(e.deep_view(), t@, rules, now, fingerprint@, key@)),
{
    let voice = match &t.voice {
        Some(voice) => voice,
        None => {
            return if !rules.dry_run && e.is_some() {
                Ok((None, Phase::Over, Action::Save))
            } else {
                Ok((e, Phase::Over, Action::Finish))
            };
        },
    };
    let known = match &e {
        Some(entry) => same(entry.session_id.as_str(), voice.session_id.as_str()),
        None => false,
    };
    let fresh = Entry {
        metadata_fingerprint: None,
        session_id: voice.session_id.clone(),
        first_seen: now,
        announced: false,
        last_post: None,
        last_attachment: None,
        pending: None,
    };
    let entry = match e {
        Some(entry) => if known {
            entry
        } else {
            fresh
        },
        None => fresh,
    };
    assert(entry@ == current_entry(e.deep_view(), voice@.session_id, now));
    if let Some(context) = &voice.context {
        return if metadata_due(&entry, fingerprint, now, rules.activity_minutes) {
            let p = announce(
                context,
                t.streamer.display_name.as_str(),
                !entry.announced,
                fingerprint,
                key,
            );
            do_propose(entry, p, rules.dry_run, now)
        } else {
            Ok((Some(entry), Phase::Over, Action::Finish))
        };
    }
    let due = t.streamer.screenshots && has_rested(entry.last_post, now, rules.screenshot_minutes);
    if entry.announced && !due {
        return Ok((Some(entry), Phase::Over, Action::Finish));
    }
    match &t.streamer.announcement_channel_id {
        Some(channel) => Ok((Some(entry), Phase::Compose(now), Action::Fetch(channel.clone()))),
        None => {
            let none: Vec<Announcement> = Vec::new();
            assert(none@ =~= Seq::<Announcement>::empty());
            do_compose(entry, t, rules.dry_run, none.as_slice(), now, now, key)
        },
    }
}

fn do_earlier(
    entry: Entry,
    t: &Observed,
    rules: Rules,
    stage: Stage,
    input: Input,
    now: Timestamp,
    fingerprint: &str,
    key: &str,
) -> (r: Result<(Option<Entry>, Phase, Action), EngineError>)
    requires
        rules.wf(),
    ensures
        agrees(r, earlier_step(entry@, t@, rules, stage, input@, now, fingerprint@, key@)),
{
    match advance(entry, rules.dry_run, stage, input, now) {
        Err(error) => Err(error),
        Ok((next, to, action)) => match action {
            Action::Finish => do_look(Some(next), t, rules, now, fingerprint, key),
            other => Ok((Some(next), Phase::Earlier(to), other)),
        },
    }
}

fn do_start(
    e: Option<Entry>,
    t: &Observed,
    rules: Rules,
    now: Timestamp,
    fingerprint: &str,
    key: &str,
) -> (r: Result<(Option<Entry>, Phase, Action), EngineError>)
    requires
        rules.wf(),
    ensures
        agrees(r, start(e.deep_view(), t@, rules, now, fingerprint@, key@)),
{
    let entry = match e {
        Some(entry) => entry,
        None => return do_look(None, t, rules, now, fingerprint, key),
    };
    let stale = match &entry.pending {
        Some(p) => match &p.attachment {
            Some(image) => image.source == crate::discord::ImageSource::DiscordAttachment
                && p.media_id.is_none() && !rules.dry_run,
            None => false,
        },
        None => return do_look(Some(entry), t, rules, now, fingerprint, key),
    };
    if stale {
        return match &t.streamer.announcement_channel_id {
            None => Err(EngineError::ImageChannel),
            Some(channel) => Ok((Some(entry), Phase::Refresh, Action::Fetch(channel.clone()))),
        };
    }
    do_earlier(entry, t, rules, Stage::Begin, Input::Done, now, fingerprint, key)
}

fn do_refresh(entry: Entry, t: &Observed, messages: &[Announcement], now: Timestamp) -> (r: Result<
    (Option<Entry>, Phase, Action),
    EngineError,
>)
    requires
        entry.pending is Some,
    ensures
        agrees(r, refresh(entry@, t@, messages@, now)),
{
    let used = match &entry.last_attachment {
        Some(id) => Some(id.as_str()),
        None => None,
    };
    let found = screenshot(
        messages,
        t.streamer.user_id.as_str(),
        entry.first_seen,
        now,
        used,
    );
    match found {
        None => Err(EngineError::ImageGone),
        Some(image) => {
            let mut whole = entry.clone();
            if let Some(p) = entry.pending {
                let mut p = p;
                p.attachment = Some(image);
                whole.pending = Some(p);
            }
            Ok((Some(whole), Phase::Earlier(Stage::Begin), Action::Save))
        },
    }
}

fn do_idle(dry_run: bool, stage: Stage, input: &Input) -> (r: Result<
    (Option<Entry>, Phase, Action),
    EngineError,
>)
    ensures
        agrees(r, idle(dry_run, stage, input@)),
{
    if lacks_save(dry_run, stage, input) {
        Err(EngineError::Unsaved)
    } else {
        Ok((None, Phase::Over, Action::Finish))
    }
}

/// A step of a target's entry, given the identity of what is known of the target and a key
/// for a new announcement.
pub fn step(
    e: Option<Entry>,
    t: &Observed,
    rules: Rules,
    phase: Phase,
    input: Input,
    now: Timestamp,
    fingerprint: &str,
    key: &str,
) -> (r: Result<(Option<Entry>, Phase, Action), EngineError>)
    requires
        rules.wf(),
    ensures
        agrees(
            r,
            visit_result(e.deep_view(), t@, rules, phase, input@, now, fingerprint@, key@),
        ),
{
    match phase {
        Phase::Begin => do_start(e, t, rules, now, fingerprint, key),
        Phase::Refresh => match e {
            Some(entry) => if entry.pending.is_some() {
                match input {
                    Input::Messages(messages) => do_refresh(entry, t, messages.as_slice(), now),
                    _ => Err(EngineError::Messages),
                }
            } else {
                Ok((Some(entry), Phase::Over, Action::Finish))
            },
            None => Ok((None, Phase::Over, Action::Finish)),
        },
        Phase::Earlier(stage) => match e {
            Some(entry) => do_earlier(entry, t, rules, stage, input, now, fingerprint, key),
            None => do_idle(rules.dry_run, stage, &input),
        },
        Phase::Compose(seen) => match e {
            Some(entry) => match input {
                Input::Messages(messages) => do_compose(
                    entry,
                    t,
                    rules.dry_run,
                    messages.as_slice(),
                    seen,
                    now,
                    key,
                ),
                _ => Err(EngineError::Messages),
            },
            None => Ok((None, Phase::Over, Action::Finish)),
        },
        Phase::Own(stage) => match e {
            Some(entry) => do_own(entry, rules.dry_run, stage, input, now),
            None => do_idle(rules.dry_run, stage, &input),
        },
        Phase::Over => if lacks_save(rules.dry_run, Stage::Done, &input) {
            Err(EngineError::Unsaved)
        } else {
            Ok((e, Phase::Over, Action::Finish))
        },
    }
}

/// The identity of what is known of a target, where something is known of it.
pub open spec fn identity_of(t: ObservedView) -> Seq<char> {
    match t.voice {
        Some(voice) => match voice.context {
            Some(context) => fingerprint_of(context, voice.channel_id->0),
            None => Seq::empty(),
        },
        None => Seq::empty(),
    }
}

/// Whoever something is known of is in a channel.
pub open spec fn placed(t: ObservedView) -> bool {
    t.voice is Some && t.voice->0.context is Some ==> t.voice->0.channel_id is Some
}

/// Whether a state and what a function returned are what a step comes to. An error leaves the
/// state as it was.
pub open spec fn steps_to(
    before: State,
    after: State,
    name: Seq<char>,
    r: Result<(Phase, Action), EngineError>,
    wanted: Progress,
) -> bool {
    match r {
        Ok((phase, action)) => {
            &&& wanted is Ok
            &&& (wanted->Ok_0.1, wanted->Ok_0.2) == (phase, action@)
            &&& before.becomes(after, name, wanted->Ok_0.0)
        },
        Err(error) => {
            &&& wanted == Err::<(Option<EntryView>, Phase, ActionView), EngineError>(error)
            &&& after == before
        },
    }
}

/// A step of a target, given the identity of what is known of it and a key for a new
/// announcement. Other targets are not touched.
pub fn visit_with(
    state: &mut State,
    name: &str,
    t: &Observed,
    rules: Rules,
    phase: Phase,
    input: Input,
    now: Timestamp,
    fingerprint: &str,
    key: &str,
) -> (r: Result<(Phase, Action), EngineError>)
    requires
        old(state).wf(),
        rules.wf(),
    ensures
        final(state).wf(),
        steps_to(
            *old(state),
            *final(state),
            name@,
            r,
            visit_result(
                old(state).entry(name@),
                t@,
                rules,
                phase,
                input@,
                now,
                fingerprint@,
                key@,
            ),
        ),
{
    let entry = state.get(name);
    match step(entry, t, rules, phase, input, now, fingerprint, key) {
        Err(error) => Err(error),
        Ok((next, to, action)) => {
            match next {
                Some(e) => state.put(name, e),
                None => state.forget(name),
            }
            Ok((to, action))
        },
    }
}

impl App {
    /// How a run of this service goes about its targets.
    pub open spec fn rules(&self, dry_run: bool) -> Rules {
        Rules {
            dry_run,
            screenshot_minutes: self.config.screenshot_interval_minutes,
            activity_minutes: self.config.activity_update_interval_minutes,
        }
    }

    /// A step of a target. Other targets are not touched.
    pub fn run(
        &self,
        state: &mut State,
        name: &str,
        t: &Observed,
        dry_run: bool,
        phase: Phase,
        input: Input,
        now: Timestamp,
    ) -> (r: Result<(Phase, Action), EngineError>)
        requires
            old(state).wf(),
            self.rules(dry_run).wf(),
            placed(t@),
        ensures
            final(state).wf(),
            exists|key: Seq<char>| #[trigger]
                is_uuid(key) && steps_to(
                    *old(state),
                    *final(state),
                    name@,
                    r,
                    visit_result(
                        old(state).entry(name@),
                        t@,
                        self.rules(dry_run),
                        phase,
                        input@,
                        now,
                        identity_of(t@),
                        key,
                    ),
                ),
    {
        let rules = Rules {
            dry_run,
            screenshot_minutes: self.config.screenshot_interval_minutes,
            activity_minutes: self.config.activity_update_interval_minutes,
        };
        let mut fingerprint = String::new();
        if let Some(voice) = &t.voice {
            if let Some(context) = &voice.context {
                if let Some(channel) = &voice.channel_id {
                    fingerprint = context.fingerprint(channel.as_str());
                }
            }
        }
        let key = fresh_key();
        assert(fingerprint@ =~= identity_of(t@));
        assert(is_uuid(key@));
        visit_with(state, name, t, rules, phase, input, now, fingerprint.as_str(), key.as_str())
    }
}

/// What holds of a target's entry in a phase.
pub open spec fn phase_holds(e: Option<EntryView>, dry_run: bool, phase: Phase) -> bool {
    match phase {
        Phase::Refresh => !dry_run,
        Phase::Earlier(stage) => e matches Some(entry) ==> stage_holds(entry, dry_run, stage),
        Phase::Own(stage) => e matches Some(entry) ==> stage_holds(entry, dry_run, stage),
        _ => true,
    }
}

/// What is saved of a target once the last action was answered: a save that was not done saves
/// nothing.
pub open spec fn saved_after(
    saved: Option<EntryView>,
    e: Option<EntryView>,
    last: ActionView,
    input: InputView,
) -> Option<EntryView> {
    if last is Save && input is Done {
        e
    } else {
        saved
    }
}

/// Whether a phase is entered when the entry was saved.
pub open spec fn awaits_save(phase: Phase) -> bool {
    match phase {
        Phase::Earlier(stage) => follows_save(stage),
        Phase::Own(stage) => follows_save(stage),
        Phase::Over => true,
        _ => false,
    }
}

/// Whether all that is known of a target is saved, or its save is the last action that was
/// asked for. A new stream is not saved until it is announced.
pub open spec fn durable(
    e: Option<EntryView>,
    saved: Option<EntryView>,
    phase: Phase,
    last: ActionView,
) -> bool {
    if last is Save {
        awaits_save(phase)
    } else {
        phase is Compose || phase is Over || e == saved
    }
}

proof fn lemma_own_is_durable(
    e: EntryView,
    saved: Option<EntryView>,
    dry_run: bool,
    stage: Stage,
    input: InputView,
    now: Timestamp,
)
    requires
        stage_holds(e, dry_run, stage),
        dry_run || saved == Some(e),
        own_step(e, dry_run, stage, input, now) is Ok,
    ensures
        ({
            let (next, to, action) = own_step(e, dry_run, stage, input, now)->Ok_0;
            &&& phase_holds(next, dry_run, to)
            &&& !dry_run ==> durable(next, saved, to, action)
            &&& action is Publish ==> !dry_run && next == saved && next is Some
                && next->0.pending is Some && next->0.pending->0.attempted_at is Some
            &&& dry_run ==> is_quiet(action)
        }),
{
    law_delivery_stays_sound(e, dry_run, stage, input, now);
    if dry_run {
        law_dry_delivery_does_nothing(e, stage, input, now);
    } else {
        law_changes_are_saved_at_once(e, stage, input, now);
        if delivery(e, dry_run, stage, input, now)->Ok_0.2 is Publish {
            law_intent_is_saved_before_publication(e, dry_run, stage, input, now);
        }
    }
}

proof fn lemma_look_is_durable(
    e: Option<EntryView>,
    saved: Option<EntryView>,
    t: ObservedView,
    rules: Rules,
    now: Timestamp,
    fingerprint: Seq<char>,
    key: Seq<char>,
)
    requires
        rules.dry_run || saved == e,
        look(e, t, rules, now, fingerprint, key) is Ok,
    ensures
        ({
            let (next, to, action) = look(e, t, rules, now, fingerprint, key)->Ok_0;
            &&& phase_holds(next, rules.dry_run, to)
            &&& !rules.dry_run ==> durable(next, saved, to, action)
            &&& !(action is Publish)
            &&& rules.dry_run ==> is_quiet(action) || action is Fetch
        }),
{
    if let Some(voice) = t.voice {
        let entry = current_entry(e, voice.session_id, now);
        if rules.dry_run {
            if let Some(context) = voice.context {
                let p = metadata_post(
                    context,
                    t.streamer.display_name,
                    !entry.announced,
                    fingerprint,
                    key,
                );
                if is_due(entry, fingerprint, now, rules.activity_minutes) {
                    lemma_own_is_durable(
                        with_pending(entry, p),
                        saved,
                        true,
                        Stage::Begin,
                        InputView::Done,
                        now,
                    );
                }
            } else if let Some(p) = stream_post(entry, t.streamer, Seq::empty(), now, key) {
                law_dry_delivery_does_nothing(
                    with_pending(entry, p),
                    Stage::Begin,
                    InputView::Done,
                    now,
                );
                law_delivery_stays_sound(
                    with_pending(entry, p),
                    true,
                    Stage::Begin,
                    InputView::Done,
                    now,
                );
            }
        }
    }
}

/// Every step of a target keeps it durable, and a post is published only while the entry that
/// is saved holds it, together with the intent to publish it. A save that was not done leads to
/// no step at all. A dry run does nothing but read. `saved` is what was saved when the last
/// action was asked for, and `input` is what came of that.
pub proof fn law_nothing_is_published_unsaved(
    e: Option<EntryView>,
    saved: Option<EntryView>,
    last: ActionView,
    t: ObservedView,
    rules: Rules,
    phase: Phase,
    input: InputView,
    now: Timestamp,
    fingerprint: Seq<char>,
    key: Seq<char>,
)
    requires
        phase_holds(e, rules.dry_run, phase),
        rules.dry_run || durable(e, saved, phase, last),
        visit_result(e, t, rules, phase, input, now, fingerprint, key) is Ok,
    ensures
        ({
            let (next, to, action) = visit_result(
                e,
                t,
                rules,
                phase,
                input,
                now,
                fingerprint,
                key,
            )->Ok_0;
            let held = saved_after(saved, e, last, input);
            &&& phase_holds(next, rules.dry_run, to)
            &&& !rules.dry_run ==> durable(next, held, to, action)
            &&& !rules.dry_run && last is Save ==> input is Done
            &&& action is Publish ==> !rules.dry_run && next == held && next is Some
                && next->0.pending is Some && next->0.pending->0.attempted_at is Some
            &&& rules.dry_run ==> is_quiet(action) || action is Fetch
        }),
{
    let held = saved_after(saved, e, last, input);
    let dry_run = rules.dry_run;
    match phase {
        Phase::Begin => {
            if e is Some && e->0.pending is Some {
                lemma_earlier_is_durable(
                    e->0,
                    held,
                    t,
                    rules,
                    Stage::Begin,
                    InputView::Done,
                    now,
                    fingerprint,
                    key,
                );
            } else {
                lemma_look_is_durable(e, held, t, rules, now, fingerprint, key);
            }
        },
        Phase::Refresh => {},
        Phase::Earlier(stage) => {
            if let Some(entry) = e {
                lemma_earlier_is_durable(
                    entry,
                    held,
                    t,
                    rules,
                    stage,
                    input,
                    now,
                    fingerprint,
                    key,
                );
            }
        },
        Phase::Compose(seen) => {
            if let (Some(entry), InputView::Messages(messages)) = (e, input) {
                if let Some(p) = stream_post(entry, t.streamer, messages, seen, key) {
                    if dry_run {
                        lemma_own_is_durable(
                            with_pending(entry, p),
                            held,
                            true,
                            Stage::Begin,
                            InputView::Done,
                            now,
                        );
                    }
                }
            }
        },
        Phase::Own(stage) => {
            if let Some(entry) = e {
                lemma_own_is_durable(entry, held, dry_run, stage, input, now);
            }
        },
        Phase::Over => {},
    }
}

proof fn lemma_earlier_is_durable(
    e: EntryView,
    saved: Option<EntryView>,
    t: ObservedView,
    rules: Rules,
    stage: Stage,
    input: InputView,
    now: Timestamp,
    fingerprint: Seq<char>,
    key: Seq<char>,
)
    requires
        stage_holds(e, rules.dry_run, stage),
        rules.dry_run || saved == Some(e),
    ensures
        earlier_step(e, t, rules, stage, input, now, fingerprint, key) matches Ok((
            next,
            to,
            action,
        )) ==> {
            &&& phase_holds(next, rules.dry_run, to)
            &&& !rules.dry_run ==> durable(next, saved, to, action)
            &&& action is Publish ==> !rules.dry_run && next == saved && next is Some
                && next->0.pending is Some && next->0.pending->0.attempted_at is Some
            &&& rules.dry_run ==> is_quiet(action) || action is Fetch
        },
{
    if let Ok((next, to, action)) = delivery(e, rules.dry_run, stage, input, now) {
        law_delivery_stays_sound(e, rules.dry_run, stage, input, now);
        if rules.dry_run {
            law_dry_delivery_does_nothing(e, stage, input, now);
        } else {
            law_changes_are_saved_at_once(e, stage, input, now);
            if action is Publish {
                law_intent_is_saved_before_publication(e, rules.dry_run, stage, input, now);
            }
        }
        if action is Finish && look(Some(next), t, rules, now, fingerprint, key) is Ok {
            lemma_look_is_durable(Some(next), saved, t, rules, now, fingerprint, key);
        }
    }
}

/// How a target stands between two steps: what is known of it, what is saved of it, the action
/// that was asked for last, and how far it has come.
pub struct Standing {
    pub e: Option<EntryView>,
    pub saved: Option<EntryView>,
    pub last: ActionView,
    pub phase: Phase,
}

/// What a step is given: what came of the last action, the time, the identity of what is known
/// of the target, and a key.
pub struct Turn {
    pub input: InputView,
    pub now: Timestamp,
    pub fingerprint: Seq<char>,
    pub key: Seq<char>,
}

/// How a target stands when a run comes to it.
pub open spec fn untouched(e: Option<EntryView>) -> Standing {
    Standing { e, saved: e, last: ActionView::Finish, phase: Phase::Begin }
}

/// How a target stands after any number of steps; nothing where one of them is an error.
pub open spec fn course(
    at: Standing,
    t: ObservedView,
    rules: Rules,
    turns: Seq<Turn>,
) -> Option<Standing>
    decreases turns.len(),
{
    if turns.len() == 0 {
        Some(at)
    } else {
        match course(at, t, rules, turns.drop_last()) {
            None => None,
            Some(m) => {
                let turn = turns.last();
                match visit_result(
                    m.e,
                    t,
                    rules,
                    m.phase,
                    turn.input,
                    turn.now,
                    turn.fingerprint,
                    turn.key,
                ) {
                    Err(_) => None,
                    Ok((next, to, action)) => Some(
                        Standing {
                            e: next,
                            saved: saved_after(m.saved, m.e, m.last, turn.input),
                            last: action,
                            phase: to,
                        },
                    ),
                }
            },
        }
    }
}

proof fn lemma_course_is_durable(
    e: Option<EntryView>,
    t: ObservedView,
    rules: Rules,
    turns: Seq<Turn>,
)
    ensures
        course(untouched(e), t, rules, turns) matches Some(m) ==> {
            &&& phase_holds(m.e, rules.dry_run, m.phase)
            &&& rules.dry_run || durable(m.e, m.saved, m.phase, m.last)
            &&& m.last is Publish ==> !rules.dry_run && m.e == m.saved && m.e is Some
                && m.e->0.pending is Some && m.e->0.pending->0.attempted_at is Some
            &&& rules.dry_run ==> m.saved == e && (is_quiet(m.last) || m.last is Fetch)
        },
    decreases turns.len(),
{
    if turns.len() > 0 && course(untouched(e), t, rules, turns) is Some {
        lemma_course_is_durable(e, t, rules, turns.drop_last());
        let m = course(untouched(e), t, rules, turns.drop_last())->0;
        let turn = turns.last();
        law_nothing_is_published_unsaved(
            m.e,
            m.saved,
            m.last,
            t,
            rules,
            m.phase,
            turn.input,
            turn.now,
            turn.fingerprint,
            turn.key,
        );
    }
}

/// However a run goes about a target, and whatever comes of its actions, a post is asked for
/// only while the very entry that holds it, with the intent to publish it, is what is saved. A
/// dry run leaves what is saved as it was.
pub proof fn law_whole_visit_is_safe(
    e: Option<EntryView>,
    t: ObservedView,
    rules: Rules,
    turns: Seq<Turn>,
)
    requires
        course(untouched(e), t, rules, turns) is Some,
    ensures
        ({
            let m = course(untouched(e), t, rules, turns)->0;
            &&& m.last is Publish ==> !rules.dry_run && m.saved is Some && m.e == m.saved
                && m.saved->0.pending is Some && m.saved->0.pending->0.attempted_at is Some
            &&& rules.dry_run ==> m.saved == e
        }),
{
    lemma_course_is_durable(e, t, rules, turns);
}

/// A target that is gone, with nothing pending, is forgotten, and that is saved; so it is
/// once what was pending is delivered.
pub proof fn law_ended_target_is_forgotten(
    e: EntryView,
    t: ObservedView,
    rules: Rules,
    input: InputView,
    now: Timestamp,
    fingerprint: Seq<char>,
    key: Seq<char>,
)
    requires
        t.voice is None,
        e.pending is None,
        !rules.dry_run,
    ensures
        visit_result(Some(e), t, rules, Phase::Begin, input, now, fingerprint, key) == Ok::<
            (Option<EntryView>, Phase, ActionView),
            EngineError,
        >((None, Phase::Over, ActionView::Save)),
        visit_result(
            Some(e),
            t,
            rules,
            Phase::Earlier(Stage::Done),
            InputView::Done,
            now,
            fingerprint,
            key,
        ) == Ok::<(Option<EntryView>, Phase, ActionView), EngineError>(
            (None, Phase::Over, ActionView::Save),
        ),
{
}

/// Whether a step leads to the announcement of a start, under this key, which is saved first.
pub open spec fn starts(r: Progress, session: Seq<char>, key: Seq<char>) -> bool {
    &&& r matches Ok((Some(next), to, action))
    &&& to == Phase::Own(Stage::Begin)
    &&& action is Save
    &&& next.session_id == session
    &&& next.pending is Some
    &&& next.pending->0.is_start
    &&& next.pending->0.key == key
}

/// A target that is not remembered, or that has another session than the one remembered, is
/// announced as a start, and that is saved first. Where its captions are to be read, it is
/// announced once they are, whatever they say.
pub proof fn law_new_session_is_announced(
    e: Option<EntryView>,
    t: ObservedView,
    rules: Rules,
    now: Timestamp,
    messages: Seq<Announcement>,
    later: Timestamp,
    fingerprint: Seq<char>,
    key: Seq<char>,
)
    requires
        t.voice is Some,
        e is None || e->0.pending is None && e->0.session_id != t.voice->0.session_id,
        !rules.dry_run,
    ensures
        ({
            let session = t.voice->0.session_id;
            let r = visit_result(
                e,
                t,
                rules,
                Phase::Begin,
                InputView::Done,
                now,
                fingerprint,
                key,
            );
            if t.voice->0.context is Some || t.streamer.announcement_channel_id is None {
                starts(r, session, key)
            } else {
                &&& r == Ok::<(Option<EntryView>, Phase, ActionView), EngineError>(
                    (
                        Some(fresh_entry(session, now)),
                        Phase::Compose(now),
                        ActionView::Fetch(t.streamer.announcement_channel_id->0),
                    ),
                )
                &&& starts(
                    visit_result(
                        Some(fresh_entry(session, now)),
                        t,
                        rules,
                        Phase::Compose(now),
                        InputView::Messages(messages),
                        later,
                        fingerprint,
                        key,
                    ),
                    session,
                    key,
                )
            }
        }),
{
}

/// The start of a session is announced once: while the session lasts, nothing that follows
/// its announcement is told as a start.
pub proof fn law_start_is_told_once(
    e: EntryView,
    t: ObservedView,
    rules: Rules,
    phase: Phase,
    input: InputView,
    now: Timestamp,
    fingerprint: Seq<char>,
    key: Seq<char>,
)
    requires
        e.announced,
        e.pending is None,
        t.voice is Some,
        t.voice->0.session_id == e.session_id,
    ensures
        visit_result(Some(e), t, rules, phase, input, now, fingerprint, key) matches Ok((
            next,
            to,
            action,
        )) ==> {
            &&& next is Some
            &&& next->0.announced
            &&& next->0.session_id == e.session_id
            &&& next->0.pending matches Some(p) ==> !p.is_start
            &&& action matches ActionView::Tell(kind) ==> kind != Kind::Start
        },
{
}

/// A stream that was announced is not announced again in the same session, whatever channel
/// it moves to.
pub proof fn law_same_session_is_announced_once(
    e: EntryView,
    t: ObservedView,
    rules: Rules,
    now: Timestamp,
    fingerprint: Seq<char>,
    key: Seq<char>,
)
    requires
        e.announced,
        e.pending is None,
        t.voice is Some,
        t.voice->0.session_id == e.session_id,
        t.voice->0.context is None,
        !t.streamer.screenshots,
    ensures
        visit_result(Some(e), t, rules, Phase::Begin, InputView::Done, now, fingerprint, key) == Ok::<
            (Option<EntryView>, Phase, ActionView),
            EngineError,
        >((Some(e), Phase::Over, ActionView::Finish)),
{
}

/// What is known of a target and was announced is not announced again until it changes.
pub proof fn law_unchanged_target_is_left_alone(
    e: EntryView,
    t: ObservedView,
    rules: Rules,
    now: Timestamp,
    fingerprint: Seq<char>,
    key: Seq<char>,
)
    requires
        e.announced,
        e.pending is None,
        e.metadata_fingerprint == Some(fingerprint),
        t.voice is Some,
        t.voice->0.session_id == e.session_id,
        t.voice->0.context is Some,
    ensures
        visit_result(Some(e), t, rules, Phase::Begin, InputView::Done, now, fingerprint, key) == Ok::<
            (Option<EntryView>, Phase, ActionView),
            EngineError,
        >((Some(e), Phase::Over, ActionView::Finish)),
{
}

} // verus!
