//! What is passed on of a shared channel.
use vstd::prelude::*;
use vstd::string::*;
use vstd::utf8::encode_utf8;

use crate::activity::is_snowflake;
use crate::avatars::global_name;
use crate::config::ServerView;
use crate::digest::sha256_of;
use crate::discord::cleaned;
use crate::engine::{delivery, ActionView, EngineError, EntryView, InputView, Kind, Stage};
use crate::json::{json_text, member, JsonView};
use crate::laws::delivering::law_a_dry_delivery_tells;
use crate::laws::reading::law_the_first_is_found;
use crate::link_titles::titled;
use crate::number::{lower_hex, parsed};
use crate::sharing::{
    draft_of, drafted, first_message, has_link, link_list, links_of, message_id, named_mention,
    named_mentions, plain_of, plain_text, preview_title, previews, revision_of, share_result,
    shared_channels, shared_name, shared_post, shared_text, take_message, topic, with_attachments,
    DraftView, LinkView, ShareActionView, ShareError, ShareInputView, SharePhaseView, SharedView,
    SpanView,
};
use crate::text::{begins, mentions, normalized, replaced};
use crate::time::Timestamp;

verus! {

/// News is passed on: a message with another fingerprint than the last, whose ID is not below
/// the cursor, be it an edit of that very message. Where there is something to say of it, its
/// titles are looked for; where there is not, it is only remembered.
pub proof fn law_news_is_passed_on(
    e: EntryView,
    dry_run: bool,
    id: Seq<char>,
    now: Timestamp,
    fingerprint: Seq<char>,
    draft: Option<DraftView>,
)
    requires
        e.metadata_fingerprint != Some(fingerprint),
        parsed(id) is Some,
        parsed(e.session_id) is Some,
        parsed(id)->0 >= parsed(e.session_id)->0,
    ensures
        ({
            let r = take_message(Some(e), dry_run, id, now, fingerprint, draft);
            &&& r is Ok
            &&& draft matches Some(d) ==> {
                &&& r->Ok_0.0 == Some(e)
                &&& r->Ok_0.1 == (SharePhaseView::Titles { id, fingerprint, draft: d })
                &&& r->Ok_0.2 is Titles
                &&& r->Ok_0.2->Titles_0.len() == d.links.len()
                &&& forall|i: int|
                    0 <= i < d.links.len() ==> {
                        let wanted = #[trigger] r->Ok_0.2->Titles_0[i];
                        &&& d.links[i].title is None ==> wanted == Some(d.links[i].url)
                        &&& d.links[i].title is Some ==> wanted is None
                    }
            }
            &&& draft is None ==> {
                &&& r->Ok_0.0 is Some
                &&& r->Ok_0.0->0.session_id == id
                &&& r->Ok_0.0->0.metadata_fingerprint == Some(fingerprint)
                &&& r->Ok_0.0->0.first_seen == e.first_seen
                &&& r->Ok_0.0->0.announced == e.announced
                &&& r->Ok_0.0->0.last_post == e.last_post
                &&& r->Ok_0.0->0.last_attachment == e.last_attachment
                &&& r->Ok_0.0->0.pending == e.pending
                &&& r->Ok_0.1 is Over
                &&& r->Ok_0.2 == ShareActionView::Act(
                    if dry_run {
                        ActionView::Finish
                    } else {
                        ActionView::Save
                    },
                )
            }
        }),
{
}

/// The last message of a channel is the first of the answer. Its ID must be a number; where
/// there is no message, it is zero.
pub proof fn law_the_last_message_is_read(body: JsonView, id: Seq<char>)
    ensures
        body is List && body->List_0.len() > 0 ==> first_message(body) == Some(body->List_0[0]),
        body is List && body->List_0.len() == 0 ==> first_message(body) is None,
        message_id(None) == Ok::<Seq<char>, ShareError>("0"@),
        forall|m: JsonView|
            #![trigger message_id(Some(m))]
            {
                &&& member(m, "id"@) == JsonView::Text(id) && (id == "0"@ || is_snowflake(id))
                    ==> message_id(Some(m)) == Ok::<Seq<char>, ShareError>(id)
                &&& member(m, "id"@) == JsonView::Text(id) && id != "0"@ && !is_snowflake(id)
                    ==> message_id(Some(m)) == Err::<Seq<char>, ShareError>(ShareError::InvalidId)
                &&& !(member(m, "id"@) is Text) ==> message_id(Some(m)) == Err::<
                    Seq<char>,
                    ShareError,
                >(ShareError::MissingId)
            },
{
}

/// An answer that can be read is taken as what its first message says; the channel is read only
/// where nothing is pending.
pub proof fn law_a_channel_is_read_where_nothing_is_pending(
    e: Option<EntryView>,
    dry_run: bool,
    status: u16,
    body: JsonView,
    now: Timestamp,
    fingerprint: Seq<char>,
    draft: Option<DraftView>,
    key: Seq<char>,
)
    ensures
        e is None || e->0.pending is None ==> share_result(
            e,
            dry_run,
            SharePhaseView::Begin,
            ShareInputView::Act(InputView::Done),
            now,
            fingerprint,
            draft,
            key,
        ) == Ok::<(Option<EntryView>, SharePhaseView, ShareActionView), ShareError>(
            (e, SharePhaseView::Reading, ShareActionView::Read),
        ),
        200 <= status < 300 && body is List && message_id(first_message(body)) is Ok
            ==> share_result(
            e,
            dry_run,
            SharePhaseView::Reading,
            ShareInputView::Answer(status, body),
            now,
            fingerprint,
            draft,
            key,
        ) == take_message(
            e,
            dry_run,
            message_id(first_message(body))->Ok_0,
            now,
            fingerprint,
            draft,
        ),
        !(200 <= status < 300) ==> share_result(
            e,
            dry_run,
            SharePhaseView::Reading,
            ShareInputView::Answer(status, body),
            now,
            fingerprint,
            draft,
            key,
        ) == Err::<(Option<EntryView>, SharePhaseView, ShareActionView), ShareError>(
            ShareError::Status(status),
        ),
{
}

/// The first time a channel is read, its last message is remembered and not passed on.
pub proof fn law_history_is_only_remembered(
    dry_run: bool,
    id: Seq<char>,
    now: Timestamp,
    fingerprint: Seq<char>,
    draft: Option<DraftView>,
)
    ensures
        take_message(None, dry_run, id, now, fingerprint, draft) matches Ok((e, phase, action)) && {
            &&& e is Some
            &&& e->0.session_id == id
            &&& e->0.metadata_fingerprint == Some(fingerprint)
            &&& e->0.first_seen == now
            &&& e->0.announced
            &&& e->0.pending is None
            &&& e->0.last_post is None
            &&& e->0.last_attachment is None
            &&& phase is Over
            &&& action == ShareActionView::Act(
                if dry_run {
                    ActionView::Finish
                } else {
                    ActionView::Save
                },
            )
        },
{
}

/// Once its titles are looked for, a message becomes a post that is saved before anything else:
/// its text with the titles, its fingerprint, a key of its own, and no picture. The cursor
/// stands on it.
pub proof fn law_a_message_becomes_a_post(
    e: EntryView,
    id: Seq<char>,
    known: Seq<char>,
    kept: DraftView,
    found: Seq<Option<Seq<char>>>,
    now: Timestamp,
    fingerprint: Seq<char>,
    draft: Option<DraftView>,
    key: Seq<char>,
)
    ensures
        share_result(
            Some(e),
            false,
            SharePhaseView::Titles { id, fingerprint: known, draft: kept },
            ShareInputView::Titles(found),
            now,
            fingerprint,
            draft,
            key,
        ) matches Ok((next, phase, action)) && {
            let p = next->0.pending->0;
            &&& next is Some
            &&& next->0.session_id == id
            &&& next->0.metadata_fingerprint == e.metadata_fingerprint
            &&& next->0.first_seen == e.first_seen
            &&& next->0.announced == e.announced
            &&& next->0.last_post == e.last_post
            &&& next->0.last_attachment == e.last_attachment
            &&& next->0.pending is Some
            &&& p.shared_message
            &&& p.avatars.len() == 0
            &&& p.metadata_fingerprint == Some(known)
            &&& p.key == key
            &&& p.text == shared_text(kept, found)
            &&& p.attachment is None
            &&& p.media_id is None
            &&& p.attempted_at is None
            &&& !p.is_start
            &&& phase == SharePhaseView::Deliver(Stage::Begin)
            &&& action == ShareActionView::Act(ActionView::Save)
        },
{
}

/// A dry run tells of a message that it would pass on, and goes on as if it had.
pub proof fn law_a_dry_run_tells_of_messages(
    e: EntryView,
    id: Seq<char>,
    known: Seq<char>,
    kept: DraftView,
    found: Seq<Option<Seq<char>>>,
    now: Timestamp,
    fingerprint: Seq<char>,
    draft: Option<DraftView>,
    key: Seq<char>,
)
    ensures
        share_result(
            Some(e),
            true,
            SharePhaseView::Titles { id, fingerprint: known, draft: kept },
            ShareInputView::Titles(found),
            now,
            fingerprint,
            draft,
            key,
        ) matches Ok((next, phase, action)) && {
            &&& next is Some
            &&& next->0.session_id == id
            &&& next->0.pending is None
            &&& next->0.metadata_fingerprint == Some(known)
            &&& next->0.last_post == Some(now)
            &&& next->0.announced == e.announced
            &&& phase == SharePhaseView::Deliver(Stage::Done)
            &&& action == ShareActionView::Act(ActionView::Tell(Kind::Update))
        },
{
    let p = shared_post(shared_text(kept, found), known, key);
    law_a_dry_delivery_tells(
        EntryView { session_id: id, pending: Some(p), ..e },
        p,
        now,
    );
}

/// What is passed on is delivered step by step like everything else; what stops the delivery
/// stops the sharing, and when it is done the sharing is over.
pub proof fn law_messages_are_delivered(
    e: EntryView,
    dry_run: bool,
    stage: Stage,
    input: InputView,
    now: Timestamp,
    fingerprint: Seq<char>,
    draft: Option<DraftView>,
    key: Seq<char>,
)
    ensures
        ({
            let r = share_result(
                Some(e),
                dry_run,
                SharePhaseView::Deliver(stage),
                ShareInputView::Act(input),
                now,
                fingerprint,
                draft,
                key,
            );
            match delivery(e, dry_run, stage, input, now) {
                Ok((next, to, action)) => r == Ok::<
                    (Option<EntryView>, SharePhaseView, ShareActionView),
                    ShareError,
                >(
                    (
                        Some(next),
                        if action is Finish {
                            SharePhaseView::Over
                        } else {
                            SharePhaseView::Deliver(to)
                        },
                        ShareActionView::Act(action),
                    ),
                ),
                Err(error) => r == Err::<
                    (Option<EntryView>, SharePhaseView, ShareActionView),
                    ShareError,
                >(ShareError::Engine(error)),
            }
        }),
        share_result(
            Some(e),
            dry_run,
            SharePhaseView::Over,
            ShareInputView::Act(input),
            now,
            fingerprint,
            draft,
            key,
        ) == (if dry_run || input is Done {
            Ok::<(Option<EntryView>, SharePhaseView, ShareActionView), ShareError>(
                (Some(e), SharePhaseView::Over, ShareActionView::Act(ActionView::Finish)),
            )
        } else {
            Err(ShareError::Engine(EngineError::Unsaved))
        }),
{
}

/// A message is known by its ID and the time of its last edit.
pub proof fn law_messages_are_known_by_id_and_edit(m: JsonView)
    ensures
        revision_of(Some(m)) == lower_hex(
            sha256_of(
                encode_utf8(
                    json_text(
                        JsonView::List(seq![member(m, "id"@), member(m, "edited_timestamp"@)]),
                    ),
                ),
            ),
        ),
        revision_of(None) == lower_hex(sha256_of(encode_utf8(json_text(JsonView::Null)))),
{
}

/// A draft is made of what people write, and of nothing else: a message or a reply that has a
/// text or a link.
pub proof fn law_what_people_write_is_drafted(message: JsonView, spans: Seq<SpanView>)
    ensures
        ({
            let kind = member(message, "type"@);
            let written = !(kind is Unsigned) || kind == JsonView::Unsigned(0) || kind
                == JsonView::Unsigned(19);
            let plain = plain_text(message, spans);
            let links = link_list(message, spans);
            let embeds = member(message, "embeds"@);
            &&& drafted(message, spans) is Some <==> written && (plain.len() > 0 || links.len()
                > 0)
            &&& drafted(message, spans) matches Some(d) ==> {
                &&& d.text == topic(global_name(member(message, "author"@), "参加者"@), plain)
                &&& d.links.len() == links.len()
                &&& forall|i: int|
                    0 <= i < links.len() ==> {
                        &&& (#[trigger] d.links[i]).url == links[i].url
                        &&& links[i].title is Some ==> d.links[i].title == links[i].title
                        &&& links[i].title is None && embeds is List ==> d.links[i].title
                            == preview_title(embeds->List_0, links[i].url)
                        &&& links[i].title is None && !(embeds is List)
                            ==> d.links[i].title is None
                    }
            }
        }),
{
    let embeds = member(message, "embeds"@);
    if !(embeds is List) {
        assert forall|url: Seq<char>| #[trigger]
            preview_title(Seq::<JsonView>::empty(), url) is None by {}
    }
}

/// A topic names who wrote and what: up to 180 characters as they are, and of more the first 180
/// with an ellipsis.
pub proof fn law_topics_name_author_and_text(author: Seq<char>, plain: Seq<char>)
    ensures
        plain.len() == 0 ==> topic(author, plain) == "💬 通話中の話題\n"@ + cleaned(author, 45) + "："@,
        0 < plain.len() <= 180 ==> topic(author, plain) == "💬 通話中の話題\n"@ + cleaned(author, 45)
            + "："@ + cleaned(plain, 180),
        plain.len() > 180 ==> topic(author, plain) == "💬 通話中の話題\n"@ + cleaned(author, 45) + "："@
            + (cleaned(plain, 180) + "…"@),
{
    let head = "💬 通話中の話題\n"@ + cleaned(author, 45) + "："@;
    assert(head + Seq::<char>::empty() =~= head);
}

/// The text of a message is what stands between its links, in order, with the people it mentions
/// called by their names and its white space as single spaces.
pub proof fn law_texts_are_what_stands_between_links(
    message: JsonView,
    spans: Seq<SpanView>,
    more: Seq<SpanView>,
    one: SpanView,
)
    ensures
        plain_of(spans + more) == plain_of(spans) + plain_of(more),
        one.link ==> plain_of(seq![one]) == Seq::<char>::empty(),
        !one.link ==> plain_of(seq![one]) == one.text,
        plain_of(Seq::<SpanView>::empty()) == Seq::<char>::empty(),
        member(message, "mentions"@) is List ==> plain_text(message, spans) == normalized(
            named_mentions(plain_of(spans), member(message, "mentions"@)->List_0),
        ),
        !(member(message, "mentions"@) is List) ==> plain_text(message, spans) == normalized(
            plain_of(spans),
        ),
    decreases more.len(),
{
    assert(seq![one].drop_last() =~= Seq::<SpanView>::empty());
    assert(plain_of(seq![one].drop_last()) == Seq::<char>::empty());
    assert(!one.link ==> plain_of(seq![one]) =~= one.text);
    if more.len() == 0 {
        assert(spans + more =~= spans);
        assert(plain_of(spans) + plain_of(more) =~= plain_of(spans));
    } else {
        law_texts_are_what_stands_between_links(message, spans, more.drop_last(), one);
        assert((spans + more).drop_last() =~= spans + more.drop_last());
        assert(plain_of(spans + more) =~= plain_of(spans) + plain_of(more));
    }
}

/// Somebody who is mentioned by ID is called by their name instead, in either form of a mention;
/// one after another.
pub proof fn law_mentions_become_names(
    text: Seq<char>,
    user: JsonView,
    users: Seq<JsonView>,
    id: Seq<char>,
)
    ensures
        member(user, "id"@) == JsonView::Text(id) ==> {
            let name = global_name(user, "参加者"@);
            let short = replaced(text, "<@"@ + id + ">"@, name);
            named_mention(text, user) == replaced(short, "<@!"@ + id + ">"@, name)
        },
        !(member(user, "id"@) is Text) ==> named_mention(text, user) == text,
        named_mentions(text, Seq::<JsonView>::empty()) == text,
        named_mentions(text, users.push(user)) == named_mention(named_mentions(text, users), user),
{
    assert(users.push(user).drop_last() =~= users);
}

/// A part of a text is replaced wherever it stands, and nothing else is.
pub proof fn law_parts_are_replaced_everywhere(
    text: Seq<char>,
    part: Seq<char>,
    with: Seq<char>,
    c: char,
)
    requires
        part.len() > 0,
    ensures
        replaced(part + text, part, with) == with + replaced(text, part, with),
        !begins(seq![c] + text, part) ==> replaced(seq![c] + text, part, with) == seq![c]
            + replaced(text, part, with),
        !mentions(text, part) ==> replaced(text, part, with) == text,
    decreases text.len(),
{
    assert((part + text).take(part.len() as int) =~= part);
    assert((part + text).skip(part.len() as int) =~= text);
    assert((seq![c] + text).drop_first() =~= text);
    if !mentions(text, part) && text.len() > 0 {
        assert(text.skip(0) =~= text);
        assert(!begins(text.skip(0), part));
        let rest = text.drop_first();
        assert forall|i: int| 0 <= i <= rest.len() implies !begins(#[trigger] rest.skip(i), part) by {
            assert(rest.skip(i) =~= text.skip(i + 1));
        }
        law_parts_are_replaced_everywhere(rest, part, with, c);
        assert(seq![text[0]] + rest =~= text);
    }
}

/// The links of a text that are short enough to be passed on, in order.
pub open spec fn short_links(spans: Seq<SpanView>) -> Seq<SpanView> {
    spans.filter(|span: SpanView| span.link && encode_utf8(span.text).len() <= 2048)
}

/// Two links of a text are passed on at most: the first, and the first that is another one.
pub proof fn law_the_first_links_are_passed_on(spans: Seq<SpanView>)
    ensures
        ({
            let short = short_links(spans);
            let links = links_of(spans);
            &&& short.len() == 0 ==> links.len() == 0
            &&& short.len() > 0 ==> {
                &&& 1 <= links.len() <= 2
                &&& links[0].url == short[0].text
                &&& links.len() == 1 <==> forall|j: int|
                    0 <= j < short.len() ==> (#[trigger] short[j]).text == short[0].text
                &&& links.len() == 2 ==> exists|j: int|
                    0 < j < short.len() && (#[trigger] short[j]).text == links[1].url
                        && short[j].text != short[0].text && forall|m: int|
                        0 <= m < j ==> (#[trigger] short[m]).text == short[0].text
            }
            &&& forall|i: int| 0 <= i < links.len() ==> (#[trigger] links[i]).title is None
        }),
    decreases spans.len(),
{
    reveal(Seq::filter);
    if spans.len() > 0 {
        let front = spans.drop_last();
        let last = spans.last();
        law_the_first_links_are_passed_on(front);
        let before = short_links(front);
        let short = short_links(spans);
        let held = links_of(front);
        let links = links_of(spans);
        if last.link && encode_utf8(last.text).len() <= 2048 {
            assert(short == before.push(last));
            assert forall|j: int| 0 <= j < before.len() implies #[trigger] short[j] == before[j] by {}
            if before.len() == 0 {
                assert(!has_link(held, last.text));
                assert(links[0].url == last.text);
            } else if held.len() == 1 {
                assert forall|j: int| 0 <= j < before.len() implies (
                #[trigger] short[j]).text == short[0].text by {
                    assert(before[j].text == before[0].text);
                }
                if last.text == held[0].url {
                    assert(has_link(held, last.text));
                    assert(links == held);
                    assert forall|j: int| 0 <= j < short.len() implies (
                    #[trigger] short[j]).text == short[0].text by {}
                } else {
                    assert(!has_link(held, last.text));
                    let j = before.len() as int;
                    assert(short[j].text == last.text);
                    assert(links.len() == 2 && links[1].url == last.text);
                    assert(links[0] == held[0]);
                }
            } else {
                assert(links == held);
                let j = choose|j: int|
                    0 < j < before.len() && (#[trigger] before[j]).text == held[1].url
                        && before[j].text != before[0].text && forall|m: int|
                        0 <= m < j ==> (#[trigger] before[m]).text == before[0].text;
                assert(short[j].text == links[1].url);
                assert forall|m: int| 0 <= m < j implies (#[trigger] short[m]).text
                    == short[0].text by {
                    assert(before[m].text == before[0].text);
                }
            }
        } else {
            assert(short == before);
            assert(links == held);
        }
    }
}

/// Attachments are passed on behind the links of the text, by their file names, as long as there
/// are not two.
pub proof fn law_attachments_follow(
    links: Seq<LinkView>,
    attachments: Seq<JsonView>,
    one: JsonView,
    url: Seq<char>,
)
    ensures
        with_attachments(links, Seq::<JsonView>::empty()) == links,
        ({
            let before = with_attachments(links, attachments);
            let after = with_attachments(links, attachments.push(one));
            &&& before.len() >= 2 ==> after == before
            &&& !(member(one, "url"@) is Text) ==> after == before
            &&& before.len() < 2 && member(one, "url"@) == JsonView::Text(url) ==> {
                &&& encode_utf8(url).len() > 2048 ==> after == before
                &&& encode_utf8(url).len() <= 2048 ==> {
                    &&& after.len() == before.len() + 1
                    &&& after.take(before.len() as int) == before
                    &&& after.last().url == url
                    &&& member(one, "filename"@) is Text ==> after.last().title == titled(
                        member(one, "filename"@)->Text_0,
                    )
                    &&& !(member(one, "filename"@) is Text) ==> after.last().title is None
                }
            }
        }),
{
    assert(attachments.push(one).drop_last() =~= attachments);
    let before = with_attachments(links, attachments);
    let after = with_attachments(links, attachments.push(one));
    if after.len() == before.len() + 1 {
        assert(after.take(before.len() as int) =~= before);
    }
}

/// All links of a message are those of its text, then those of its attachments.
pub proof fn law_links_are_those_of_text_and_attachments(message: JsonView, spans: Seq<SpanView>)
    ensures
        member(message, "attachments"@) is List ==> link_list(message, spans) == with_attachments(
            links_of(spans),
            member(message, "attachments"@)->List_0,
        ),
        !(member(message, "attachments"@) is List) ==> link_list(message, spans) == links_of(spans),
{
}

/// A preview gives a link its title where it is the first of that very link.
pub proof fn law_previews_title_their_own_link(
    embeds: Seq<JsonView>,
    url: Seq<char>,
    i: int,
    title: Seq<char>,
)
    ensures
        0 <= i < embeds.len() && member(embeds[i], "url"@) == JsonView::Text(url) && (forall|j: int|
            0 <= j < i ==> member(#[trigger] embeds[j], "url"@) != JsonView::Text(url)) ==> {
            &&& member(embeds[i], "title"@) == JsonView::Text(title) ==> preview_title(embeds, url)
                == titled(title)
            &&& !(member(embeds[i], "title"@) is Text) ==> preview_title(embeds, url) is None
        },
        (forall|j: int|
            0 <= j < embeds.len() ==> member(#[trigger] embeds[j], "url"@) != JsonView::Text(url))
            ==> preview_title(embeds, url) is None,
{
    let test = previews(url);
    law_the_first_is_found(embeds, test);
    if 0 <= i < embeds.len() && member(embeds[i], "url"@) == JsonView::Text(url) && (forall|j: int|
        0 <= j < i ==> member(#[trigger] embeds[j], "url"@) != JsonView::Text(url)) {
        assert(test(embeds[i]));
        let found = crate::activity::first_where(embeds, test)->0;
        let k = choose|k: int|
            0 <= k < embeds.len() && #[trigger] embeds[k] == found && test(found) && forall|j: int|
                0 <= j < k ==> !test(#[trigger] embeds[j]);
        if i < k {
            assert(!test(embeds[i]));
        } else if k < i {
            assert(member(embeds[k], "url"@) == JsonView::Text(url));
        }
        assert(embeds[i] == found);
    }
    if forall|j: int|
        0 <= j < embeds.len() ==> member(#[trigger] embeds[j], "url"@) != JsonView::Text(url) {
        assert forall|j: int| 0 <= j < embeds.len() implies !test(#[trigger] embeds[j]) by {}
    }
}

/// What is shared is the text, then every link on a line of its own, below its title where it
/// has one or one was found.
pub proof fn law_every_link_is_shared(
    text: Seq<char>,
    links: Seq<LinkView>,
    link: LinkView,
    found: Seq<Option<Seq<char>>>,
)
    ensures
        shared_text(DraftView { text, links: Seq::empty() }, found) == text,
        ({
            let before = shared_text(DraftView { text, links }, found);
            let after = shared_text(DraftView { text, links: links.push(link) }, found);
            let n = links.len() as int;
            &&& link.title matches Some(title) ==> after == before + ("\n"@ + cleaned(title, 65)
                + "\n"@ + link.url)
            &&& link.title is None && n < found.len() && found[n] is Some ==> after == before + (
            "\n"@ + cleaned(found[n]->0, 65) + "\n"@ + link.url)
            &&& link.title is None && (n >= found.len() || found[n] is None) ==> after == before
                + ("\n"@ + link.url)
        }),
{
    assert(text + Seq::<char>::empty() =~= text);
    assert(links.push(link).drop_last() =~= links);
    let before = shared_text(DraftView { text, links }, found);
    let after = shared_text(DraftView { text, links: links.push(link) }, found);
    let n = links.len() as int;
    if let Some(title) = link.title {
        assert(after =~= before + ("\n"@ + cleaned(title, 65) + "\n"@ + link.url));
    } else if n < found.len() && found[n] is Some {
        assert(after =~= before + ("\n"@ + cleaned(found[n]->0, 65) + "\n"@ + link.url));
    } else {
        assert(after =~= before + ("\n"@ + link.url));
    }
}

/// Every channel that is shared is read while somebody is in a call of its server: one for each
/// such server, in the order of the configuration.
pub proof fn law_every_shared_channel_is_read(
    servers: Seq<ServerView>,
    occupied: Set<Seq<char>>,
)
    ensures
        ({
            let wanted = servers.filter(
                |s: ServerView| s.share_channel_id is Some && occupied.contains(s.guild_id),
            );
            let read = shared_channels(servers, occupied);
            &&& read.len() == wanted.len()
            &&& forall|i: int|
                0 <= i < read.len() ==> (#[trigger] read[i]).guild == wanted[i].guild_id && Some(
                    read[i].channel,
                ) == wanted[i].share_channel_id
        }),
    decreases servers.len(),
{
    reveal(Seq::filter);
    if servers.len() > 0 {
        law_every_shared_channel_is_read(servers.drop_last(), occupied);
    }
}

/// A shared channel is remembered under its server and its own ID.
pub proof fn law_shared_channels_are_named(s: SharedView)
    ensures
        shared_name(s) == s.guild + ":share-"@ + s.channel,
{
    reveal_strlit(":share-");
    reveal_strlit("share-");
    assert(":share-"@ =~= seq![':'] + "share-"@);
    assert(shared_name(s) =~= s.guild + ":share-"@ + s.channel);
}

/// What an answer says is drafted from the content of its first message, whose links are web
/// addresses.
pub proof fn law_messages_are_drafted_from_their_content(
    status: u16,
    body: JsonView,
    m: JsonView,
    content: Seq<char>,
)
    ensures
        crate::sharing::message_in(ShareInputView::Answer(status, body)) == first_message(body),
        draft_of(None) is None,
        member(m, "content"@) == JsonView::Text(content) ==> draft_of(Some(m)) == drafted(
            m,
            crate::sharing::spans_in(content, crate::sharing::Sought::Url),
        ),
        !(member(m, "content"@) is Text) ==> draft_of(Some(m)) == drafted(
            m,
            crate::sharing::spans_in(Seq::empty(), crate::sharing::Sought::Url),
        ),
{
}

} // verus!
