//! What people say of their own streams: titles and screenshots, and when they count.
use vstd::prelude::*;
use vstd::string::*;

use crate::config::StreamerView;
use crate::discord::{
    captioned, cleaned, illustrated, last_usable, messages_url, newest, screenshot_of, title_of,
    usable, voice_url, Announcement, Attachment,
};
use crate::number::{all_digits, parsed, value};
use crate::text::{begins, trimmed};
use crate::time::{elapsed, Timestamp};

verus! {

/// Instants are ordered by their seconds, and within a second by their nanoseconds; so many
/// seconds before an instant is the same place within an earlier second.
pub proof fn law_instants_are_ordered(a: Timestamp, b: Timestamp, seconds: int)
    ensures
        a.at() <= b.at() <==> a.seconds < b.seconds || a.seconds == b.seconds && a.nanos
            <= b.nanos,
        a.nanos < 1_000_000_000 ==> (a.at_before(seconds) <= b.at() <==> a.seconds - seconds
            < b.seconds || a.seconds - seconds == b.seconds && a.nanos <= b.nanos),
        a.nanos >= 1_000_000_000 ==> (a.at_before(seconds) <= b.at() <==> a.seconds + 1 - seconds
            < b.seconds || a.seconds + 1 - seconds == b.seconds && a.nanos - 1_000_000_000
            <= b.nanos),
{
}

/// The time that goes by is counted in whole seconds, rounded towards none, and going back
/// takes as long as going forth.
pub proof fn law_time_is_counted_in_whole_seconds(from: Timestamp, to: Timestamp)
    ensures
        elapsed(from, to) == -elapsed(to, from),
        from.nanos < 1_000_000_000 && to.nanos < 1_000_000_000 ==> {
            let gap = (to.seconds - from.seconds) * 1_000_000_000 + to.nanos - from.nanos;
            gap >= 0 ==> elapsed(from, to) * 1_000_000_000 <= gap < (elapsed(from, to) + 1)
                * 1_000_000_000
        },
{
    let day = 86_400int;
    assert(from.of_day() == from.seconds as int % day);
}

/// A second that is counted twice lasts as long as two seconds for what comes later that day.
pub proof fn law_a_leap_second_is_counted(from: Timestamp, to: Timestamp)
    requires
        1_000_000_000 <= from.nanos < 2_000_000_000,
        to.seconds as int % 86_400 > from.seconds as int % 86_400,
    ensures
        elapsed(from, to) == elapsed(
            Timestamp { seconds: from.seconds, nanos: (from.nanos - 1_000_000_000) as u32 },
            to,
        ),
{
}

/// What a number is written with is what it is read as: one more digit is ten times as much and
/// that digit, a plus sign in front changes nothing, and what holds anything but digits, or
/// nothing, or more than fits, is no number.
pub proof fn law_numbers_are_read_digit_by_digit(text: Seq<char>, digit: char)
    ensures
        parsed(seq!['+'] + text) == (if text.len() > 0 && text[0] == '+' {
            None
        } else {
            parsed(text)
        }),
        text.len() == 0 ==> parsed(text) is None,
        0x30 <= digit as u32 <= 0x39 ==> parsed(seq![digit]) == Some(
            (digit as u32 - 0x30) as u64,
        ),
        parsed(text) is Some && 0x30 <= digit as u32 <= 0x39 ==> {
            let more = parsed(text)->0 * 10 + (digit as u32 - 0x30);
            parsed(text.push(digit)) == (if more <= u64::MAX {
                Some(more as u64)
            } else {
                None
            })
        },
        parsed(text) is Some ==> forall|i: int|
            0 < i < text.len() ==> 0x30 <= (#[trigger] text[i]) as u32 <= 0x39,
{
    let plus = seq!['+'] + text;
    assert(plus.drop_first() == text);
    if text.len() > 0 && text[0] == '+' {
        assert(!crate::text::digit(text[0]));
        assert(!all_digits(text));
    }
    let one = seq![digit];
    reveal_with_fuel(value, 2);
    assert(one.drop_last() == Seq::<char>::empty());
    if 0x30 <= digit as u32 <= 0x39 {
        assert(one[0] == digit);
        assert(all_digits(one));
        assert(value(one) == (digit as u32 - 0x30) as nat);
    }
    if parsed(text) is Some && 0x30 <= digit as u32 <= 0x39 {
        let longer = text.push(digit);
        let digits = if text[0] == '+' {
            text.drop_first()
        } else {
            text
        };
        let more = digits.push(digit);
        assert(more == if longer[0] == '+' {
            longer.drop_first()
        } else {
            longer
        });
        assert(more.drop_last() == digits);
        assert(all_digits(more)) by {
            assert forall|i: int| 0 <= i < more.len() implies crate::text::digit(
                #[trigger] more[i],
            ) by {
                if i < digits.len() {
                    assert(more[i] == digits[i]);
                }
            }
        }
        assert(value(more) == value(digits) * 10 + (digit as u32 - 0x30));
    }
    if parsed(text) is Some {
        assert forall|i: int| 0 < i < text.len() implies 0x30 <= (#[trigger] text[i]) as u32
            <= 0x39 by {
            if text[0] == '+' {
                assert(text.drop_first()[i - 1] == text[i]);
                assert(crate::text::digit(text.drop_first()[i - 1]));
            } else {
                assert(crate::text::digit(text[i]));
            }
        }
    }
}

/// Whether a person wrote a message themselves.
pub open spec fn writes(user: Seq<char>, m: Announcement) -> bool {
    m.author.id@ == user && !m.author.bot && m.webhook_id is None
}

/// Whether a message gives a stream its title: the person wrote it within the last twelve
/// hours, with the word that calls for a title and something behind it.
pub open spec fn gives_title(m: Announcement, user: Seq<char>, now: Timestamp) -> bool {
    &&& writes(user, m)
    &&& now.at_before(43_200) <= m.timestamp.at()
    &&& m.timestamp.at() <= now.at()
    &&& "!sirucord "@.is_prefix_of(m.content@)
    &&& trimmed(m.content@.skip(10)).len() > 0
}

/// Whether one message was written after another: the later stands behind where both were
/// written at once.
pub open spec fn is_later(messages: Seq<Announcement>, i: int, j: int) -> bool {
    ||| messages[i].timestamp.at() > messages[j].timestamp.at()
    ||| messages[i].timestamp.at() == messages[j].timestamp.at() && i > j
}

proof fn lemma_titles(m: Announcement, user: Seq<char>, now: Timestamp)
    ensures
        captioned(user, now)(m) <==> gives_title(m, user, now),
        "!sirucord "@.len() == 10,
{
    reveal_strlit("!sirucord ");
    let start = "!sirucord "@;
    if start.len() <= m.content@.len() {
        assert(m.content@.take(start.len() as int) == m.content@.subrange(
            0,
            start.len() as int,
        ));
    }
    assert(begins(m.content@, start) <==> start.is_prefix_of(m.content@));
}

/// The title of a stream is what its streamer wrote last behind the word that calls for one,
/// made safe, in at most two hundred characters.
pub proof fn law_the_last_caption_is_the_title(
    messages: Seq<Announcement>,
    user: Seq<char>,
    now: Timestamp,
    i: int,
)
    requires
        0 <= i < messages.len(),
        gives_title(messages[i], user, now),
        forall|j: int|
            0 <= j < messages.len() && j != i && gives_title(#[trigger] messages[j], user, now)
                ==> is_later(messages, i, j),
    ensures
        title_of(messages, user, now) == Some(
            cleaned(trimmed(messages[i].content@.skip(10)), 200),
        ),
{
    let pick = captioned(user, now);
    assert forall|j: int| 0 <= j < messages.len() implies (pick(#[trigger] messages[j])
        <==> gives_title(messages[j], user, now)) by {
        lemma_titles(messages[j], user, now);
    }
    lemma_titles(messages[i], user, now);
    assert(newest(messages, pick, i));
    let k = choose|k: int| newest(messages, pick, k);
    assert(newest(messages, pick, k));
    assert(k == i);
}

/// Where nobody wrote a caption, there is no title.
pub proof fn law_no_caption_is_no_title(
    messages: Seq<Announcement>,
    user: Seq<char>,
    now: Timestamp,
)
    requires
        forall|j: int| 0 <= j < messages.len() ==> !gives_title(#[trigger] messages[j], user, now),
    ensures
        title_of(messages, user, now) is None,
{
    let pick = captioned(user, now);
    assert forall|j: int| !newest(messages, pick, j) by {
        if newest(messages, pick, j) {
            lemma_titles(messages[j], user, now);
        }
    }
}

/// Whether an attachment is an image that can be posted and comes after the last that was.
pub open spec fn is_picture(image: Attachment, used: Option<Seq<char>>) -> bool {
    &&& image.size <= 8_388_608
    &&& image.content_type matches Some(kind) && (kind@ == "image/png"@ || kind@
        == "image/jpeg"@ || kind@ == "image/webp"@)
    &&& used matches Some(last) ==> parsed(image.id@) is Some && parsed(last) is Some
        && parsed(last)->0 < parsed(image.id@)->0
}

pub open spec fn has_picture(images: Seq<Attachment>, used: Option<Seq<char>>) -> bool {
    exists|k: int| 0 <= k < images.len() && is_picture(#[trigger] images[k], used)
}

/// Whether a message shows a screenshot: the person wrote it since then, with the word that
/// calls for one, and attached an image.
pub open spec fn shows_picture(
    m: Announcement,
    user: Seq<char>,
    since: Timestamp,
    now: Timestamp,
    used: Option<Seq<char>>,
) -> bool {
    &&& writes(user, m)
    &&& m.content@ == "!sirucord"@ || "!sirucord "@.is_prefix_of(m.content@)
    &&& since.at() <= m.timestamp.at()
    &&& m.timestamp.at() <= now.at()
    &&& has_picture(m.attachments@, used)
}

proof fn lemma_last_picture(images: Seq<Attachment>, used: Option<Seq<char>>, k: int)
    requires
        0 <= k < images.len(),
        usable(images[k], used),
    ensures
        exists|l: int| last_usable(images, used, l),
    decreases images.len() - k,
{
    if last_usable(images, used, k) {
    } else {
        let j = choose|j: int| k < j < images.len() && usable(#[trigger] images[j], used);
        lemma_last_picture(images, used, j);
    }
}

proof fn lemma_picture(image: Attachment, used: Option<Seq<char>>)
    ensures
        usable(image, used) <==> is_picture(image, used),
{
}

proof fn lemma_pictures(
    m: Announcement,
    user: Seq<char>,
    since: Timestamp,
    now: Timestamp,
    used: Option<Seq<char>>,
)
    ensures
        illustrated(user, since, now, used)(m) <==> shows_picture(m, user, since, now, used),
{
    let start = "!sirucord "@;
    if start.len() <= m.content@.len() {
        assert(m.content@.take(start.len() as int) == m.content@.subrange(
            0,
            start.len() as int,
        ));
    }
    assert(begins(m.content@, start) <==> start.is_prefix_of(m.content@));
    let images = m.attachments@;
    if has_picture(images, used) {
        let k = choose|k: int| 0 <= k < images.len() && is_picture(#[trigger] images[k], used);
        lemma_picture(images[k], used);
        lemma_last_picture(images, used, k);
    }
    if exists|k: int| last_usable(images, used, k) {
        let k = choose|k: int| last_usable(images, used, k);
        lemma_picture(images[k], used);
        assert(is_picture(images[k], used));
    }
}

/// The screenshot of a stream is the last image of what its streamer showed last.
pub proof fn law_the_last_picture_is_the_screenshot(
    messages: Seq<Announcement>,
    user: Seq<char>,
    since: Timestamp,
    now: Timestamp,
    used: Option<Seq<char>>,
    i: int,
    k: int,
)
    requires
        0 <= i < messages.len(),
        shows_picture(messages[i], user, since, now, used),
        forall|j: int|
            0 <= j < messages.len() && j != i && shows_picture(
                #[trigger] messages[j],
                user,
                since,
                now,
                used,
            ) ==> is_later(messages, i, j),
        0 <= k < messages[i].attachments@.len(),
        is_picture(messages[i].attachments@[k], used),
        forall|l: int|
            k < l < messages[i].attachments@.len() ==> !is_picture(
                #[trigger] messages[i].attachments@[l],
                used,
            ),
    ensures
        screenshot_of(messages, user, since, now, used) == Some(messages[i].attachments@[k]@),
{
    let pick = illustrated(user, since, now, used);
    assert forall|j: int| 0 <= j < messages.len() implies (pick(#[trigger] messages[j])
        <==> shows_picture(messages[j], user, since, now, used)) by {
        lemma_pictures(messages[j], user, since, now, used);
    }
    assert(newest(messages, pick, i));
    let chosen = choose|j: int| newest(messages, pick, j);
    assert(newest(messages, pick, chosen));
    assert(chosen == i);
    let images = messages[i].attachments@;
    assert forall|l: int| 0 <= l < images.len() implies (usable(#[trigger] images[l], used)
        <==> is_picture(images[l], used)) by {
        lemma_picture(images[l], used);
    }
    assert(last_usable(images, used, k));
    let last = choose|l: int| last_usable(images, used, l);
    assert(last_usable(images, used, last));
    assert(last == k);
}

/// Where nobody showed an image, there is no screenshot.
pub proof fn law_no_picture_is_no_screenshot(
    messages: Seq<Announcement>,
    user: Seq<char>,
    since: Timestamp,
    now: Timestamp,
    used: Option<Seq<char>>,
)
    requires
        forall|j: int|
            0 <= j < messages.len() ==> !shows_picture(
                #[trigger] messages[j],
                user,
                since,
                now,
                used,
            ),
    ensures
        screenshot_of(messages, user, since, now, used) is None,
{
    let pick = illustrated(user, since, now, used);
    assert forall|j: int| !newest(messages, pick, j) by {
        if newest(messages, pick, j) {
            lemma_pictures(messages[j], user, since, now, used);
        }
    }
}

/// What is asked of a person and of a channel names that person on that server, and that
/// channel.
pub proof fn law_questions_name_what_they_are_about(
    base: Seq<char>,
    s: StreamerView,
    channel: Seq<char>,
    limit: Seq<char>,
)
    ensures
        voice_url(base, s) == base + "/guilds/"@ + s.guild_id + "/voice-states/"@ + s.user_id,
        messages_url(base, channel, limit) == base + "/channels/"@ + channel + "/messages?limit="@
            + limit,
{
}

} // verus!
