//! What is done about a target, and how an announcement is delivered.
use vstd::prelude::*;
use vstd::string::*;

use crate::activity::{fingerprint_of, first_artwork, post_text, StreamContextView};
use crate::discord::{cleaned, screenshot_of, title_of, Announcement, VoiceView};
use crate::engine::{
    completed, delivery, is_due, kind_of, kind_text, rested, stripped, ActionView, EngineError,
    EntryView, InputView, Kind, PendingView, PostView, Stage,
};
use crate::text::{begins, find, join, joined_rest, lemma_find, lines, without_return};
use crate::time::{elapsed, Timestamp};
use crate::visit::{
    current_entry, identity_of, metadata_post, stream_post, visit_result, ObservedView, Phase,
    Rules,
};

verus! {

/// Whether two entries differ in nothing but what is pending.
pub open spec fn same_but_pending(a: EntryView, b: EntryView) -> bool {
    &&& a.metadata_fingerprint == b.metadata_fingerprint
    &&& a.session_id == b.session_id
    &&& a.first_seen == b.first_seen
    &&& a.announced == b.announced
    &&& a.last_post == b.last_post
    &&& a.last_attachment == b.last_attachment
}

/// Whether two announcements say the same: whatever may become of them while they are delivered,
/// their key, their kind and what they are about stay.
pub open spec fn same_announcement(a: PendingView, b: PendingView) -> bool {
    &&& a.shared_message == b.shared_message
    &&& a.avatars == b.avatars
    &&& a.metadata_fingerprint == b.metadata_fingerprint
    &&& a.key == b.key
    &&& a.is_start == b.is_start
}

/// What a delivery does next, once its text may be published: it stops where an earlier attempt
/// is too old to be repeated; else it makes a card where there are participants to show, uploads
/// an image where there is one, notes the attempt, and publishes, in this order and each only
/// where it is not done yet.
pub proof fn law_a_delivery_does_what_is_left(e: EntryView, p: PendingView, now: Timestamp)
    requires
        e.pending == Some(p),
    ensures
        ({
            let r = delivery(e, false, Stage::Ready, InputView::Done, now);
            let old = p.attempted_at matches Some(t) && elapsed(t, now) >= 55 * 60;
            let card = p.avatars.len() > 0 && p.media_id is None;
            let image = p.attachment is Some && p.media_id is None;
            &&& old ==> r == Err::<(EntryView, Stage, ActionView), EngineError>(
                EngineError::Uncertain,
            )
            &&& !old && card ==> r == Ok::<(EntryView, Stage, ActionView), EngineError>(
                (e, Stage::Card, ActionView::Card(p.avatars)),
            )
            &&& !old && !card ==> r == delivery(e, false, Stage::Illustrate, InputView::Done, now)
            &&& image ==> delivery(e, false, Stage::Illustrate, InputView::Done, now) == Ok::<
                (EntryView, Stage, ActionView),
                EngineError,
            >(
                (
                    e,
                    Stage::Upload,
                    ActionView::Upload(
                        p.attachment->0,
                        if p.attachment->0.source is ActivityAsset {
                            "Discord Rich Presenceで公開されているゲームの画像（配信のスクリーンショットではありません）"@
                        } else {
                            "配信者本人が共有したDiscord配信のスクリーンショット"@
                        },
                    ),
                ),
            )
            &&& !image ==> delivery(e, false, Stage::Illustrate, InputView::Done, now) == delivery(
                e,
                false,
                Stage::Attempt,
                InputView::Done,
                now,
            )
        }),
{
}

/// An attempt is noted, and saved, before the post is published; then the post is published as
/// it stands, with its key, its text and its image.
pub proof fn law_an_attempt_is_noted(e: EntryView, p: PendingView, now: Timestamp)
    requires
        e.pending == Some(p),
    ensures
        ({
            let r = delivery(e, false, Stage::Attempt, InputView::Done, now);
            let publish = Ok::<(EntryView, Stage, ActionView), EngineError>(
                (
                    e,
                    Stage::Publishing,
                    ActionView::Publish(
                        PostView { key: p.key, text: p.text, media_id: p.media_id },
                    ),
                ),
            );
            &&& p.attempted_at is Some ==> r == publish
            &&& p.attempted_at is None ==> {
                &&& r is Ok
                &&& r->Ok_0.1 == Stage::Publish
                &&& r->Ok_0.2 is Save
                &&& same_but_pending(r->Ok_0.0, e)
                &&& r->Ok_0.0.pending is Some
                &&& r->Ok_0.0.pending->0.attempted_at == Some(now)
                &&& same_announcement(r->Ok_0.0.pending->0, p)
                &&& r->Ok_0.0.pending->0.text == p.text
                &&& r->Ok_0.0.pending->0.attachment == p.attachment
                &&& r->Ok_0.0.pending->0.media_id == p.media_id
            }
            &&& delivery(e, false, Stage::Publish, InputView::Done, now) == publish
        }),
{
}

/// What was uploaded belongs to the post from then on. A card and a shared image are worth
/// failing for; a game's picture is left out instead.
pub proof fn law_what_is_uploaded_is_kept(
    e: EntryView,
    p: PendingView,
    stage: Stage,
    input: InputView,
    now: Timestamp,
)
    requires
        e.pending == Some(p),
        stage == Stage::Card || stage == Stage::Upload,
    ensures
        ({
            let r = delivery(e, false, stage, input, now);
            let shared = p.attachment is Some && p.attachment->0.source is DiscordAttachment;
            let next = r->Ok_0.0.pending->0;
            &&& input matches InputView::Media(id) ==> r is Ok && next.media_id == Some(id)
                && next.attachment == p.attachment
            &&& !(input is Media) && (stage == Stage::Card || shared) ==> r == Err::<
                (EntryView, Stage, ActionView),
                EngineError,
            >(EngineError::Upload)
            &&& !(input is Media) && stage == Stage::Upload && !shared ==> r is Ok
                && next.media_id == p.media_id && next.attachment is None
            &&& r is Ok ==> {
                &&& r->Ok_0.2 is Save
                &&& r->Ok_0.1 == (if stage == Stage::Card {
                    Stage::Illustrate
                } else {
                    Stage::Attempt
                })
                &&& same_but_pending(r->Ok_0.0, e)
                &&& r->Ok_0.0.pending is Some
                &&& same_announcement(next, p)
                &&& next.text == p.text
                &&& next.attempted_at == p.attempted_at
            }
        }),
{
}

/// A text that leads into Discord is stripped of that, and saved, before anything else; a text
/// that does not is delivered at once.
pub proof fn law_texts_are_stripped_first(e: EntryView, p: PendingView, now: Timestamp)
    requires
        e.pending == Some(p),
    ensures
        ({
            let r = delivery(e, false, Stage::Begin, InputView::Done, now);
            &&& stripped(p.text) == p.text ==> r == delivery(
                e,
                false,
                Stage::Ready,
                InputView::Done,
                now,
            )
            &&& stripped(p.text) != p.text ==> {
                &&& r is Ok
                &&& r->Ok_0.1 == Stage::Ready
                &&& r->Ok_0.2 is Save
                &&& same_but_pending(r->Ok_0.0, e)
                &&& r->Ok_0.0.pending is Some
                &&& r->Ok_0.0.pending->0.text == stripped(p.text)
                &&& same_announcement(r->Ok_0.0.pending->0, p)
                &&& r->Ok_0.0.pending->0.attachment == p.attachment
                &&& r->Ok_0.0.pending->0.media_id == p.media_id
                &&& r->Ok_0.0.pending->0.attempted_at == p.attempted_at
            }
        }),
{
}

/// What was published is completed and saved; what was not stays pending.
pub proof fn law_published_posts_are_completed(
    e: EntryView,
    p: PendingView,
    input: InputView,
    now: Timestamp,
)
    requires
        e.pending == Some(p),
    ensures
        ({
            let r = delivery(e, false, Stage::Publishing, input, now);
            &&& input is Done ==> r == Ok::<(EntryView, Stage, ActionView), EngineError>(
                (completed(e, now), Stage::Done, ActionView::Save),
            )
            &&& !(input is Done) ==> r == Err::<(EntryView, Stage, ActionView), EngineError>(
                EngineError::Publication,
            )
        }),
        delivery(completed(e, now), false, Stage::Done, InputView::Done, now) == Ok::<
            (EntryView, Stage, ActionView),
            EngineError,
        >((completed(e, now), Stage::Done, ActionView::Finish)),
{
}

/// A dry run tells of what is pending and takes it for published; nothing else is done.
pub proof fn law_a_dry_delivery_tells(e: EntryView, p: PendingView, now: Timestamp)
    requires
        e.pending == Some(p),
    ensures
        delivery(e, true, Stage::Begin, InputView::Done, now) matches Ok((next, stage, action)) && {
            &&& stage == Stage::Done
            &&& action == ActionView::Tell(
                if p.is_start {
                    Kind::Start
                } else if p.metadata_fingerprint is Some {
                    Kind::Update
                } else {
                    Kind::Screenshot
                },
            )
            &&& next == completed(e, now)
        },
{
    let clean = PendingView { text: stripped(p.text), ..p };
    assert(completed(EntryView { pending: Some(clean), ..e }, now) == completed(e, now));
}

/// What is remembered of what was published: when, which image of a person was the last, and
/// what was announced. A start is told once; nothing is pending any more.
pub proof fn law_completing_remembers(e: EntryView, now: Timestamp)
    ensures
        e.pending is None ==> completed(e, now) == e,
        e.pending matches Some(p) ==> {
            let next = completed(e, now);
            &&& next.pending is None
            &&& next.last_post == Some(now)
            &&& next.session_id == e.session_id
            &&& next.first_seen == e.first_seen
            &&& p.is_start ==> next.announced
            &&& !p.is_start ==> next.announced == e.announced
            &&& p.metadata_fingerprint is Some ==> next.metadata_fingerprint
                == p.metadata_fingerprint
            &&& p.metadata_fingerprint is None ==> next.metadata_fingerprint
                == e.metadata_fingerprint
            &&& p.attachment is Some && p.attachment->0.source is DiscordAttachment
                ==> next.last_attachment == Some(p.attachment->0.id)
            &&& p.attachment is None || p.attachment->0.source is ActivityAsset
                ==> next.last_attachment == e.last_attachment
        },
{
}

/// Information is published where nothing was yet, and where it changed and the interval since
/// the last post has passed, to the second; never else.
pub proof fn law_changes_are_due_after_the_interval(
    e: EntryView,
    fingerprint: Seq<char>,
    now: Timestamp,
    minutes: u64,
)
    ensures
        is_due(e, fingerprint, now, minutes) <==> {
            ||| !e.announced
            ||| e.metadata_fingerprint is None
            ||| e.metadata_fingerprint->0 != fingerprint && e.last_post is None
            ||| e.metadata_fingerprint->0 != fingerprint && e.last_post is Some && elapsed(
                e.last_post->0,
                now,
            ) >= 60 * minutes
        },
        rested(e.last_post, now, minutes) <==> (e.last_post is None || elapsed(
            e.last_post->0,
            now,
        ) >= 60 * minutes),
{
}

/// Whether a text is a line as it stands in a text of several.
pub open spec fn is_line(text: Seq<char>) -> bool {
    !text.contains('\n') && (text.len() > 0 ==> text.last() != '\r')
}

proof fn lemma_lines_read_back(list: Seq<Seq<char>>)
    requires
        forall|i: int| 0 <= i < list.len() ==> is_line(#[trigger] list[i]),
        list.len() > 0 ==> list.last().len() > 0,
    ensures
        lines(join(list, seq!['\n'])) == list,
    decreases list.len(),
{
    let text = join(list, seq!['\n']);
    if list.len() == 0 {
        assert(lines(text) =~= list);
    } else {
        let rest = list.drop_first();
        let first = list[0];
        assert(is_line(first));
        lemma_find(text, '\n');
        if rest.len() == 0 {
            assert(text =~= first);
            assert(seq![first] =~= list);
        } else {
            assert forall|i: int| 0 <= i < rest.len() implies is_line(#[trigger] rest[i]) by {
                assert(rest[i] == list[i + 1]);
            }
            assert(rest.last() == list.last());
            lemma_lines_read_back(rest);
            let tail = join(rest, seq!['\n']);
            let behind = joined_rest(rest, seq!['\n']);
            assert(behind =~= seq!['\n'] + tail);
            assert(text =~= first + seq!['\n'] + tail);
            let n = find(text, '\n') as int;
            assert(text[first.len() as int] == '\n');
            if n < first.len() {
                assert(first[n] == '\n');
                assert(first.contains('\n'));
            }
            assert(n == first.len());
            assert(text.take(n) =~= first);
            assert(text.skip(n + 1) =~= tail);
            assert(without_return(first) == first);
            assert(seq![first] + rest =~= list);
        }
    }
}

/// Of a text, the lines that are links into Discord are left out, and all other lines are kept
/// in their order.
pub proof fn law_only_links_are_stripped(list: Seq<Seq<char>>)
    requires
        forall|i: int| 0 <= i < list.len() ==> is_line(#[trigger] list[i]),
        list.len() > 0 ==> list.last().len() > 0,
    ensures
        stripped(join(list, seq!['\n'])) == join(
            list.filter(|line: Seq<char>| !begins(line, "https://discord.com/channels/"@)),
            seq!['\n'],
        ),
        (forall|i: int|
            0 <= i < list.len() ==> !begins(#[trigger] list[i], "https://discord.com/channels/"@))
            ==> stripped(join(list, seq!['\n'])) == join(list, seq!['\n']),
{
    lemma_lines_read_back(list);
    reveal_strlit("\n");
    assert("\n"@ =~= seq!['\n']);
    let test = |line: Seq<char>| !begins(line, "https://discord.com/channels/"@);
    assert(crate::engine::no_link() =~= test);
    if forall|i: int|
        0 <= i < list.len() ==> !begins(#[trigger] list[i], "https://discord.com/channels/"@) {
        lemma_all_kept(list);
    }
}

proof fn lemma_all_kept(list: Seq<Seq<char>>)
    requires
        forall|i: int|
            0 <= i < list.len() ==> !begins(#[trigger] list[i], "https://discord.com/channels/"@),
    ensures
        list.filter(|line: Seq<char>| !begins(line, "https://discord.com/channels/"@)) == list,
    decreases list.len(),
{
    reveal(Seq::filter);
    if list.len() > 0 {
        let front = list.drop_last();
        assert forall|i: int| 0 <= i < front.len() implies !begins(
            #[trigger] front[i],
            "https://discord.com/channels/"@,
        ) by {
            assert(front[i] == list[i]);
        }
        lemma_all_kept(front);
        assert(front.push(list.last()) =~= list);
    }
}

/// A session that is known keeps what is remembered of it; another one begins anew.
pub proof fn law_sessions_begin_anew(e: Option<EntryView>, session: Seq<char>, now: Timestamp)
    ensures
        e is Some && e->0.session_id == session ==> current_entry(e, session, now) == e->0,
        e is None || e->0.session_id != session ==> {
            let next = current_entry(e, session, now);
            &&& next.session_id == session
            &&& next.first_seen == now
            &&& !next.announced
            &&& next.metadata_fingerprint is None
            &&& next.last_post is None
            &&& next.last_attachment is None
            &&& next.pending is None
        },
{
}

/// Whether a step leaves an announcement to be saved before anything else.
pub open spec fn proposes(
    r: Result<(Option<EntryView>, Phase, ActionView), EngineError>,
    entry: EntryView,
    p: PendingView,
) -> bool {
    &&& r is Ok
    &&& r->Ok_0.0 is Some
    &&& same_but_pending(r->Ok_0.0->0, entry)
    &&& r->Ok_0.0->0.pending == Some(p)
    &&& r->Ok_0.1 == Phase::Own(Stage::Begin)
    &&& r->Ok_0.2 is Save
}

/// Whether a step leaves a target as it is.
pub open spec fn leaves(
    r: Result<(Option<EntryView>, Phase, ActionView), EngineError>,
    entry: Option<EntryView>,
) -> bool {
    r == Ok::<(Option<EntryView>, Phase, ActionView), EngineError>(
        (entry, Phase::Over, ActionView::Finish),
    )
}

/// What is done about a target that nothing is pending for. One that is gone is forgotten. One
/// that Discord describes is announced where that is due. Another is announced when it starts,
/// and its image is passed on when the interval has passed; its channel is read first where it
/// has one.
pub proof fn law_targets_are_gone_about_as_they_stand(
    e: Option<EntryView>,
    t: ObservedView,
    rules: Rules,
    now: Timestamp,
    fingerprint: Seq<char>,
    key: Seq<char>,
)
    requires
        e is None || e->0.pending is None,
        !rules.dry_run,
    ensures
        ({
            let r = visit_result(
                e,
                t,
                rules,
                Phase::Begin,
                InputView::Done,
                now,
                fingerprint,
                key,
            );
            &&& t.voice is None && e is None ==> leaves(r, None)
            &&& t.voice is None && e is Some ==> r == Ok::<
                (Option<EntryView>, Phase, ActionView),
                EngineError,
            >((None, Phase::Over, ActionView::Save))
            &&& t.voice matches Some(voice) ==> {
                let entry = current_entry(e, voice.session_id, now);
                let start = !entry.announced;
                let image = t.streamer.screenshots && rested(
                    entry.last_post,
                    now,
                    rules.screenshot_minutes,
                );
                &&& voice.context matches Some(context) ==> {
                    &&& is_due(entry, fingerprint, now, rules.activity_minutes) ==> proposes(
                        r,
                        entry,
                        metadata_post(
                            context,
                            t.streamer.display_name,
                            start,
                            fingerprint,
                            key,
                        ),
                    )
                    &&& !is_due(entry, fingerprint, now, rules.activity_minutes) ==> leaves(
                        r,
                        Some(entry),
                    )
                }
                &&& voice.context is None && !start && !image ==> leaves(r, Some(entry))
                &&& voice.context is None && (start || image) ==> match t.streamer.announcement_channel_id {
                    Some(channel) => r == Ok::<
                        (Option<EntryView>, Phase, ActionView),
                        EngineError,
                    >((Some(entry), Phase::Compose(now), ActionView::Fetch(channel))),
                    None => match stream_post(entry, t.streamer, Seq::empty(), now, key) {
                        Some(p) => proposes(r, entry, p),
                        None => leaves(r, Some(entry)),
                    },
                }
            }
        }),
{
}

/// The messages of a channel make the announcement, or nothing where there is none to make.
pub proof fn law_messages_make_the_announcement(
    entry: EntryView,
    t: ObservedView,
    rules: Rules,
    seen: Timestamp,
    messages: Seq<Announcement>,
    now: Timestamp,
    fingerprint: Seq<char>,
    key: Seq<char>,
)
    requires
        !rules.dry_run,
    ensures
        ({
            let r = visit_result(
                Some(entry),
                t,
                rules,
                Phase::Compose(seen),
                InputView::Messages(messages),
                now,
                fingerprint,
                key,
            );
            match stream_post(entry, t.streamer, messages, seen, key) {
                Some(p) => proposes(r, entry, p),
                None => leaves(r, Some(entry)),
            }
        }),
        visit_result(
            Some(entry),
            t,
            rules,
            Phase::Compose(seen),
            InputView::Failed,
            now,
            fingerprint,
            key,
        ) == Err::<(Option<EntryView>, Phase, ActionView), EngineError>(EngineError::Messages),
{
}

/// What was pending before is delivered first, whatever became of the target. An image that a
/// person shared is read anew before it is uploaded, because its address expires.
pub proof fn law_what_was_pending_comes_first(
    entry: EntryView,
    p: PendingView,
    t: ObservedView,
    rules: Rules,
    messages: Seq<Announcement>,
    now: Timestamp,
    fingerprint: Seq<char>,
    key: Seq<char>,
)
    requires
        entry.pending == Some(p),
        !rules.dry_run,
    ensures
        ({
            let r = visit_result(
                Some(entry),
                t,
                rules,
                Phase::Begin,
                InputView::Done,
                now,
                fingerprint,
                key,
            );
            let expires = p.attachment is Some && p.attachment->0.source is DiscordAttachment
                && p.media_id is None;
            let fresh = screenshot_of(
                messages,
                t.streamer.user_id,
                entry.first_seen,
                now,
                entry.last_attachment,
            );
            let again = visit_result(
                Some(entry),
                t,
                rules,
                Phase::Refresh,
                InputView::Messages(messages),
                now,
                fingerprint,
                key,
            );
            &&& expires ==> match t.streamer.announcement_channel_id {
                Some(channel) => r == Ok::<(Option<EntryView>, Phase, ActionView), EngineError>(
                    (Some(entry), Phase::Refresh, ActionView::Fetch(channel)),
                ),
                None => r == Err::<(Option<EntryView>, Phase, ActionView), EngineError>(
                    EngineError::ImageChannel,
                ),
            }
            &&& !expires ==> match delivery(entry, false, Stage::Begin, InputView::Done, now) {
                Ok((next, stage, action)) => r == Ok::<
                    (Option<EntryView>, Phase, ActionView),
                    EngineError,
                >((Some(next), Phase::Earlier(stage), action)),
                Err(error) => r == Err::<(Option<EntryView>, Phase, ActionView), EngineError>(
                    error,
                ),
            }
            &&& fresh is None ==> again == Err::<
                (Option<EntryView>, Phase, ActionView),
                EngineError,
            >(EngineError::ImageGone)
            &&& fresh matches Some(image) ==> {
                &&& again is Ok
                &&& again->Ok_0.1 == Phase::Earlier(Stage::Begin)
                &&& again->Ok_0.2 is Save
                &&& again->Ok_0.0 is Some
                &&& same_but_pending(again->Ok_0.0->0, entry)
                &&& again->Ok_0.0->0.pending is Some
                &&& same_announcement(again->Ok_0.0->0.pending->0, p)
                &&& again->Ok_0.0->0.pending->0.attachment == Some(image)
                &&& again->Ok_0.0->0.pending->0.text == p.text
                &&& again->Ok_0.0->0.pending->0.media_id == p.media_id
                &&& again->Ok_0.0->0.pending->0.attempted_at == p.attempted_at
            }
        }),
{
}

/// What was pending before is delivered step by step, and the target is looked at when that is
/// done; what is new is delivered step by step, too.
pub proof fn law_deliveries_go_on(
    entry: EntryView,
    t: ObservedView,
    rules: Rules,
    stage: Stage,
    input: InputView,
    now: Timestamp,
    fingerprint: Seq<char>,
    key: Seq<char>,
)
    requires
        delivery(entry, rules.dry_run, stage, input, now) is Ok,
        !(delivery(entry, rules.dry_run, stage, input, now)->Ok_0.2 is Finish),
    ensures
        ({
            let (next, to, action) = delivery(entry, rules.dry_run, stage, input, now)->Ok_0;
            &&& visit_result(
                Some(entry),
                t,
                rules,
                Phase::Earlier(stage),
                input,
                now,
                fingerprint,
                key,
            ) == Ok::<(Option<EntryView>, Phase, ActionView), EngineError>(
                (Some(next), Phase::Earlier(to), action),
            )
            &&& visit_result(
                Some(entry),
                t,
                rules,
                Phase::Own(stage),
                input,
                now,
                fingerprint,
                key,
            ) == Ok::<(Option<EntryView>, Phase, ActionView), EngineError>(
                (Some(next), Phase::Own(to), action),
            )
        }),
{
}

/// Where what was pending is done with, the target is looked at as if nothing had been pending;
/// where what is new is done with, the visit is over. What stops a delivery stops the visit.
pub proof fn law_a_target_is_looked_at_in_the_end(
    entry: EntryView,
    t: ObservedView,
    rules: Rules,
    stage: Stage,
    input: InputView,
    now: Timestamp,
    fingerprint: Seq<char>,
    key: Seq<char>,
)
    ensures
        ({
            let earlier = visit_result(
                Some(entry),
                t,
                rules,
                Phase::Earlier(stage),
                input,
                now,
                fingerprint,
                key,
            );
            let own = visit_result(
                Some(entry),
                t,
                rules,
                Phase::Own(stage),
                input,
                now,
                fingerprint,
                key,
            );
            match delivery(entry, rules.dry_run, stage, input, now) {
                Ok((next, to, action)) => action is Finish ==> {
                    &&& next.pending is None ==> earlier == visit_result(
                        Some(next),
                        t,
                        rules,
                        Phase::Begin,
                        InputView::Done,
                        now,
                        fingerprint,
                        key,
                    )
                    &&& own == Ok::<(Option<EntryView>, Phase, ActionView), EngineError>(
                        (Some(next), Phase::Over, ActionView::Finish),
                    )
                },
                Err(error) => {
                    &&& earlier == Err::<(Option<EntryView>, Phase, ActionView), EngineError>(error)
                    &&& own == Err::<(Option<EntryView>, Phase, ActionView), EngineError>(error)
                },
            }
        }),
{
}

/// A dry run tells what it would announce, and goes on as if it had.
pub proof fn law_a_dry_run_tells_what_is_new(
    e: Option<EntryView>,
    t: ObservedView,
    rules: Rules,
    now: Timestamp,
    fingerprint: Seq<char>,
    key: Seq<char>,
)
    requires
        rules.dry_run,
        e matches Some(entry) ==> entry.pending is None,
        t.voice is Some,
        t.voice->0.context is Some,
        is_due(
            current_entry(e, t.voice->0.session_id, now),
            fingerprint,
            now,
            rules.activity_minutes,
        ),
    ensures
        ({
            let entry = current_entry(e, t.voice->0.session_id, now);
            let r = visit_result(
                e,
                t,
                rules,
                Phase::Begin,
                InputView::Done,
                now,
                fingerprint,
                key,
            );
            &&& r is Ok
            &&& r->Ok_0.2 == ActionView::Tell(
                if entry.announced {
                    Kind::Update
                } else {
                    Kind::Start
                },
            )
            &&& r->Ok_0.1 == Phase::Own(Stage::Done)
            &&& r->Ok_0.0 matches Some(next) && {
                &&& next.pending is None
                &&& next.announced
                &&& next.metadata_fingerprint == Some(fingerprint)
                &&& next.last_post == Some(now)
                &&& next.session_id == t.voice->0.session_id
            }
        }),
{
    let entry = current_entry(e, t.voice->0.session_id, now);
    let p = metadata_post(
        t.voice->0.context->0,
        t.streamer.display_name,
        !entry.announced,
        fingerprint,
        key,
    );
    law_a_dry_delivery_tells(EntryView { pending: Some(p), ..entry }, p, now);
}

/// Where a visit is over it stays over, unless what it left behind could not be saved.
pub proof fn law_a_visit_that_is_over_stays_over(
    e: Option<EntryView>,
    t: ObservedView,
    rules: Rules,
    input: InputView,
    now: Timestamp,
    fingerprint: Seq<char>,
    key: Seq<char>,
)
    ensures
        visit_result(e, t, rules, Phase::Over, input, now, fingerprint, key) == (
        if rules.dry_run || input is Done {
            Ok::<(Option<EntryView>, Phase, ActionView), EngineError>(
                (e, Phase::Over, ActionView::Finish),
            )
        } else {
            Err(EngineError::Unsaved)
        }),
{
}

/// What Discord describes is announced in the words for it, with a card where two or more are in
/// the call, with the picture of the game where there is one, and under a key of its own.
pub proof fn law_descriptions_are_announced(
    context: StreamContextView,
    name: Seq<char>,
    start: bool,
    fingerprint: Seq<char>,
    key: Seq<char>,
)
    ensures
        ({
            let p = metadata_post(context, name, start, fingerprint, key);
            &&& p.text == post_text(context, name, start)
            &&& p.key == key
            &&& p.metadata_fingerprint == Some(fingerprint)
            &&& p.is_start == start
            &&& context.participants >= 2 ==> p.avatars == context.avatars
            &&& context.participants < 2 ==> p.avatars.len() == 0
            &&& p.attachment == first_artwork(context.activities)
            &&& p.media_id is None
            &&& p.attempted_at is None
            &&& !p.shared_message
        }),
{
}

/// A stream that starts is announced with its caption, else with its default title; afterwards
/// only an image of its person is passed on.
pub proof fn law_streams_are_announced_once_then_images(
    e: EntryView,
    s: crate::config::StreamerView,
    messages: Seq<Announcement>,
    now: Timestamp,
    key: Seq<char>,
)
    ensures
        ({
            let post = stream_post(e, s, messages, now, key);
            let image = screenshot_of(messages, s.user_id, e.first_seen, now, e.last_attachment);
            let title = match title_of(messages, s.user_id, now) {
                Some(text) => text,
                None => cleaned(s.default_title, 200),
            };
            &&& !e.announced ==> post is Some && post->0.attachment is None && post->0.is_start
                && post->0.text == "🔴 "@ + cleaned(s.display_name, 80)
                + " さんのDiscord配信開始を検知しました\n内容："@ + title
            &&& e.announced ==> (post is Some <==> image is Some)
            &&& e.announced && image is Some ==> post->0.attachment == image && !post->0.is_start
                && post->0.text == "📷 "@ + cleaned(s.display_name, 80) + " さんから配信スクリーンショット\n内容："@
                + title
            &&& post matches Some(p) ==> {
                &&& p.key == key
                &&& p.avatars.len() == 0
                &&& p.metadata_fingerprint is None
                &&& p.media_id is None
                &&& p.attempted_at is None
                &&& !p.shared_message
            }
        }),
{
}

/// What a target is known by: the digest of what Discord describes of it in its channel.
pub proof fn law_targets_are_known_by_their_description(t: ObservedView, voice: VoiceView)
    requires
        t.voice == Some(voice),
    ensures
        voice.context matches Some(context) ==> identity_of(t) == fingerprint_of(
            context,
            voice.channel_id->0,
        ),
{
}

/// A log tells the kind of an announcement, in words that hold nothing of it.
pub proof fn law_kinds_are_told_in_words(p: PendingView)
    ensures
        p.is_start ==> kind_text(kind_of(p)) == "start announcement"@,
        !p.is_start && p.metadata_fingerprint is Some ==> kind_text(kind_of(p))
            == "stream information update"@,
        !p.is_start && p.metadata_fingerprint is None ==> kind_text(kind_of(p)) == "screenshot"@,
{
}

} // verus!
