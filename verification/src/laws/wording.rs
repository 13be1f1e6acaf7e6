//! What an announcement says of a stream or a call.
use vstd::prelude::*;
use vstd::string::*;
use vstd::utf8::encode_utf8;

use crate::activity::{
    activities_in, activities_of, activity_in, activity_lines, all_activity_lines, arranged,
    artwork_in, body_lines, channel_name, context_json, context_of, fingerprint_of, first_artwork,
    first_where, heading, is_snowflake, items_in, label, lemma_arranged, lemma_heading_short,
    of_user, optional_line, party_in, person_in, post_text, sooner, ActivityView, StreamContextView,
};
use crate::digest::sha256_of;
use crate::discord::{cleaned, AttachmentView, ImageSource};
use crate::json::{equal_values, json_text, member, JsonView};
use crate::laws::reading::{law_texts_are_halved_at_the_first, law_the_first_is_found};
use crate::number::{decimal, lemma_decimal_value, lower_hex, value};
use crate::text::{blank, join};

verus! {

/// How many facts are known of an activity.
pub open spec fn facts(a: ActivityView) -> int {
    1 + (if a.details is Some {
        1int
    } else {
        0
    }) + (if a.state is Some {
        1int
    } else {
        0
    }) + (if a.image_text is Some {
        1int
    } else {
        0
    }) + (if a.party is Some {
        1int
    } else {
        0
    })
}

pub open spec fn all_facts(list: Seq<ActivityView>) -> int
    decreases list.len(),
{
    if list.len() == 0 {
        0
    } else {
        all_facts(list.drop_last()) + facts(list.last())
    }
}

/// Whether the lines from this place on tell all that is known of an activity, each fact in a
/// line of its own.
pub open spec fn told_at(lines: Seq<Seq<char>>, a: ActivityView, k: int) -> bool {
    let details = k + 1;
    let state = details + (if a.details is Some {
        1int
    } else {
        0
    });
    let caption = state + (if a.state is Some {
        1int
    } else {
        0
    });
    let party = caption + (if a.image_text is Some {
        1int
    } else {
        0
    });
    &&& 0 <= k && k + facts(a) <= lines.len()
    &&& a.kind == 0 ==> lines[k] == "プレイ中"@ + "："@ + a.name
    &&& a.kind == 1 ==> lines[k] == "外部配信表示"@ + "："@ + a.name
    &&& a.kind == 5 ==> lines[k] == "競技中"@ + "："@ + a.name
    &&& a.details matches Some(text) ==> lines[details] == "内容："@ + text
    &&& a.state matches Some(text) ==> lines[state] == "状態："@ + text
    &&& a.image_text matches Some(text) ==> lines[caption] == "ゲーム情報："@ + text
    &&& a.party matches Some((current, max)) ==> lines[party] == "ゲーム内パーティー："@ + (decimal(
        current as nat,
    ) + "/"@ + decimal(max as nat))
}

proof fn lemma_told_at(a: ActivityView)
    ensures
        activity_lines(a).len() == facts(a),
        told_at(activity_lines(a), a, 0),
{
    let party = match a.party {
        Some((current, max)) => Some(decimal(current as nat) + "/"@ + decimal(max as nat)),
        None => None,
    };
    let l1 = optional_line("内容："@, a.details);
    let l2 = optional_line("状態："@, a.state);
    let l3 = optional_line("ゲーム情報："@, a.image_text);
    let l4 = optional_line("ゲーム内パーティー："@, party);
    let lines = activity_lines(a);
    let one = lines[0];
    assert(lines == seq![one] + l1 + l2 + l3 + l4);
    if a.details is Some {
        assert(lines[1] == l1[0]);
    }
    if a.state is Some {
        assert(lines[1int + l1.len()] == l2[0]);
    }
    if a.image_text is Some {
        assert(lines[1int + l1.len() + l2.len()] == l3[0]);
    }
    if a.party is Some {
        assert(lines[1int + l1.len() + l2.len() + l3.len()] == l4[0]);
    }
}

proof fn lemma_all_told(list: Seq<ActivityView>)
    ensures
        all_activity_lines(list).len() == all_facts(list),
        all_facts(list) >= 0,
        forall|i: int|
            0 <= i < list.len() ==> told_at(
                all_activity_lines(list),
                #[trigger] list[i],
                all_facts(list.take(i)),
            ),
    decreases list.len(),
{
    if list.len() > 0 {
        let front = list.drop_last();
        let last = list.last();
        lemma_all_told(front);
        lemma_told_at(last);
        let before = all_activity_lines(front);
        let own = activity_lines(last);
        let lines = all_activity_lines(list);
        assert(lines == before + own);
        assert forall|i: int| 0 <= i < list.len() implies told_at(
            lines,
            #[trigger] list[i],
            all_facts(list.take(i)),
        ) by {
            if i < front.len() {
                assert(front.take(i) =~= list.take(i));
                assert(told_at(before, front[i], all_facts(front.take(i))));
                let k = all_facts(list.take(i));
                assert forall|j: int| k <= j < k + facts(list[i]) implies #[trigger] lines[j]
                    == before[j] by {}
            } else {
                assert(list.take(i) =~= front);
                let k = all_facts(front);
                assert forall|j: int| 0 <= j < own.len() implies lines[k + j] == #[trigger] own[j] by {}
            }
        }
    }
}

/// Every fact that is known of a stream is told, independently of every other fact, in the order
/// of the activities, and nothing else is: the place and the number of those in the call first,
/// then each activity with its details, state, caption and party as far as it has them.
pub proof fn law_every_fact_is_told(c: StreamContextView)
    requires
        c.voice_members.len() == 0,
    ensures
        body_lines(c)[0] == "場所："@ + c.channel_name + "／通話参加 "@ + decimal(c.participants) + "人"@,
        c.activities.len() == 0 ==> body_lines(c).len() == 2 && body_lines(c)[1]
            == "共有アプリの情報はDiscordから取得できませんでした"@,
        c.activities.len() > 0 ==> body_lines(c)[1]
            == "Discordのアクティビティ（共有画面とは一致しない場合があります）"@ && body_lines(c).len() == 2
            + all_facts(c.activities),
        forall|i: int|
            0 <= i < c.activities.len() ==> told_at(
                body_lines(c),
                #[trigger] c.activities[i],
                2 + all_facts(c.activities.take(i)),
            ),
{
    lemma_all_told(c.activities);
    let told = all_activity_lines(c.activities);
    let lines = body_lines(c);
    if c.activities.len() > 0 {
        assert forall|j: int| 0 <= j < told.len() implies lines[2 + j] == #[trigger] told[j] by {}
        assert forall|i: int| 0 <= i < c.activities.len() implies told_at(
            lines,
            #[trigger] c.activities[i],
            2 + all_facts(c.activities.take(i)),
        ) by {
            let k = all_facts(c.activities.take(i));
            assert(told_at(told, c.activities[i], k));
            assert forall|j: int| k <= j < k + facts(c.activities[i]) implies lines[2 + j]
                == #[trigger] told[j] by {}
        }
    }
}

/// A call is announced with everybody who is in it, by name and in order, and with nothing of
/// what they do.
pub proof fn law_everybody_in_a_call_is_named(c: StreamContextView)
    requires
        c.voice_members.len() > 0,
    ensures
        body_lines(c).len() == 3,
        body_lines(c)[0] == "場所："@ + c.channel_name + "／通話参加 "@ + decimal(c.participants) + "人"@,
        body_lines(c)[1] == "現在、配信はありません"@,
        body_lines(c)[2] == "参加者："@ + join(c.voice_members, "、"@),
{
}

proof fn lemma_behind(label: Seq<char>, x: Seq<char>, y: Seq<char>)
    requires
        label + x == label + y,
    ensures
        x == y,
{
    assert((label + x).skip(label.len() as int) =~= x);
    assert((label + y).skip(label.len() as int) =~= y);
}

proof fn lemma_labels()
    ensures
        "プレイ中"@.len() == 4 && "プレイ中"@[0] == 'プ',
        "外部配信表示"@.len() == 6 && "外部配信表示"@[0] == '外',
        "競技中"@.len() == 3 && "競技中"@[0] == '競',
        "内容："@.len() == 3 && "内容："@[0] == '内',
        "状態："@.len() == 3 && "状態："@[0] == '状',
        "ゲーム情報："@.len() == 6 && "ゲーム情報："@[0] == 'ゲ' && "ゲーム情報："@[3] == '情',
        "ゲーム内パーティー："@.len() == 10 && "ゲーム内パーティー："@[0] == 'ゲ' && "ゲーム内パーティー："@[3]
            == '内',
{
    reveal_strlit("プレイ中");
    reveal_strlit("外部配信表示");
    reveal_strlit("競技中");
    reveal_strlit("内容：");
    reveal_strlit("状態：");
    reveal_strlit("ゲーム情報：");
    reveal_strlit("ゲーム内パーティー：");
}

proof fn lemma_decimal_one(a: nat, b: nat)
    requires
        decimal(a) == decimal(b),
    ensures
        a == b,
{
    lemma_decimal_value(a);
    lemma_decimal_value(b);
}

proof fn lemma_party_text(a: (u64, u64), b: (u64, u64))
    requires
        decimal(a.0 as nat) + "/"@ + decimal(a.1 as nat) == decimal(b.0 as nat) + "/"@ + decimal(
            b.1 as nat,
        ),
    ensures
        a == b,
{
    reveal_strlit("/");
    assert("/"@ =~= seq!['/']);
    lemma_decimal_value(a.0 as nat);
    lemma_decimal_value(b.0 as nat);
    let x = decimal(a.0 as nat);
    let y = decimal(b.0 as nat);
    if x.contains('/') {
        let i = x.index_of('/');
        assert(crate::text::digit(x[i]));
    }
    if y.contains('/') {
        let i = y.index_of('/');
        assert(crate::text::digit(y[i]));
    }
    law_texts_are_halved_at_the_first(x, decimal(a.1 as nat), '/');
    law_texts_are_halved_at_the_first(y, decimal(b.1 as nat), '/');
    lemma_decimal_one(a.0 as nat, b.0 as nat);
    lemma_decimal_one(a.1 as nat, b.1 as nat);
}

/// Two activities that differ in anything that is announced of them have different lines.
#[verifier::rlimit(60)]
pub proof fn law_activities_are_told_apart(a: ActivityView, b: ActivityView)
    requires
        a.kind == 0 || a.kind == 1 || a.kind == 5,
        b.kind == 0 || b.kind == 1 || b.kind == 5,
        activity_lines(a) == activity_lines(b),
    ensures
        a.kind == b.kind,
        a.name == b.name,
        a.details == b.details,
        a.state == b.state,
        a.image_text == b.image_text,
        a.party == b.party,
{
    lemma_labels();
    lemma_told_at(a);
    lemma_told_at(b);
    let l = activity_lines(a);
    assert(l[0][0] == (if a.kind == 0 {
        'プ'
    } else if a.kind == 1 {
        '外'
    } else {
        '競'
    }));
    assert(l[0][0] == (if b.kind == 0 {
        'プ'
    } else if b.kind == 1 {
        '外'
    } else {
        '競'
    }));
    assert(a.kind == b.kind);
    if a.kind == 0 {
        lemma_behind("プレイ中"@ + "："@, a.name, b.name);
    } else if a.kind == 1 {
        lemma_behind("外部配信表示"@ + "："@, a.name, b.name);
    } else {
        lemma_behind("競技中"@ + "："@, a.name, b.name);
    }
    lemma_heads(a);
    lemma_heads(b);
    assert(a.details is Some <==> b.details is Some);
    if a.details is Some {
        lemma_behind("内容："@, a.details->0, b.details->0);
    }
    assert(a.state is Some <==> b.state is Some);
    if a.state is Some {
        lemma_behind("状態："@, a.state->0, b.state->0);
    }
    assert(a.image_text is Some <==> b.image_text is Some);
    if a.image_text is Some {
        lemma_behind("ゲーム情報："@, a.image_text->0, b.image_text->0);
    }
    if a.party is Some {
        let (x, y) = a.party->0;
        let (u, v) = b.party->0;
        lemma_behind(
            "ゲーム内パーティー："@,
            decimal(x as nat) + "/"@ + decimal(y as nat),
            decimal(u as nat) + "/"@ + decimal(v as nat),
        );
        lemma_party_text((x, y), (u, v));
    }
}

/// Which fact a line tells is seen from its beginning.
proof fn lemma_heads(a: ActivityView)
    ensures
        ({
            let l = activity_lines(a);
            let n1 = 1 + (if a.details is Some {
                1int
            } else {
                0
            });
            let n2 = n1 + (if a.state is Some {
                1int
            } else {
                0
            });
            let n3 = n2 + (if a.image_text is Some {
                1int
            } else {
                0
            });
            &&& l.len() == facts(a)
            &&& a.details is Some <==> l.len() > 1 && l[1].len() > 0 && l[1][0] == '内'
            &&& a.state is Some <==> l.len() > n1 && l[n1].len() > 0 && l[n1][0] == '状'
            &&& a.image_text is Some <==> l.len() > n2 && l[n2].len() > 3 && l[n2][3] == '情'
                && l[n2][0] == 'ゲ'
            &&& a.party is Some <==> l.len() > n3
        }),
{
    lemma_labels();
    lemma_told_at(a);
    let l = activity_lines(a);
    if a.details is Some {
        assert(l[1][0] == '内');
    }
    let n1 = 1 + (if a.details is Some {
        1int
    } else {
        0
    });
    if a.state is Some {
        assert(l[n1][0] == '状');
    }
    let n2 = n1 + (if a.state is Some {
        1int
    } else {
        0
    });
    if a.image_text is Some {
        assert(l[n2][0] == 'ゲ' && l[n2][3] == '情');
    }
    let n3 = n2 + (if a.image_text is Some {
        1int
    } else {
        0
    });
    if a.party is Some {
        assert(l[n3][0] == 'ゲ' && l[n3][3] == '内');
    }
}

/// A post is its heading and its lines, as they are where they fit; where they do not, it is as
/// long as a post may be, ends with an ellipsis, and is the same up to there.
pub proof fn law_posts_say_all_that_fits(c: StreamContextView, name: Seq<char>, start: bool)
    ensures
        ({
            let whole = heading(c, name, start) + "\n"@ + join(body_lines(c), "\n"@);
            let text = post_text(c, name, start);
            &&& whole.len() <= 480 ==> text == whole
            &&& whole.len() > 480 ==> text.len() == 480 && text.last() == '…' && text.take(479)
                == whole.take(479)
        }),
{
    lemma_heading_short(c, name, start);
    reveal_strlit("\n");
    reveal_strlit("…");
    let top = heading(c, name, start);
    let lines = join(body_lines(c), "\n"@);
    let whole = top + "\n"@ + lines;
    let text = post_text(c, name, start);
    let room = (480 - (top.len() + 1)) as nat;
    if whole.len() <= 480 {
        assert(lines.len() <= room);
    } else {
        assert(lines.len() > room);
        assert(text == top + "\n"@ + (lines.take(room - 1) + "…"@));
        assert(text.take(479) =~= whole.take(479));
    }
}

/// The first line says what happened, and to whom: a call or a stream, found or changed.
pub proof fn law_headings_say_what_happened(c: StreamContextView, name: Seq<char>)
    ensures
        c.voice_members.len() > 0 ==> heading(c, name, true) == "💬 Discordの通話参加を検知しました"@
            && heading(c, name, false) == "💬 Discordの通話参加状況を更新しました"@,
        c.voice_members.len() == 0 ==> heading(c, name, true) == "🔴 "@ + cleaned(name, 60)
            + " さんのDiscord配信を検知しました"@ && heading(c, name, false) == "🎮 "@ + cleaned(name, 60)
            + " さんのDiscord配信情報を更新しました"@,
{
}

/// A label is what may be published of a text, unless nothing but white space is left of it.
pub proof fn law_labels_are_texts(value: JsonView, max: nat, text: Seq<char>)
    ensures
        value == JsonView::Text(text) && !blank(cleaned(text, max)) ==> label(value, max) == Some(
            cleaned(text, max),
        ),
        value == JsonView::Text(text) && blank(cleaned(text, max)) ==> label(value, max) is None,
        !(value is Text) ==> label(value, max) is None,
{
}

/// An activity is announced exactly where it is a game, a stream elsewhere or a competition and
/// has a name; then its details, state, caption, party and picture are those of the activity. A
/// text that was told before is not told again.
pub proof fn law_activities_are_read_whole(raw: JsonView)
    ensures
        ({
            let kind = member(raw, "type"@);
            let name = label(member(raw, "name"@), 70);
            let details = label(member(raw, "details"@), 90);
            let state = label(member(raw, "state"@), 80);
            let caption = label(member(member(raw, "assets"@), "large_text"@), 70);
            let known = kind == JsonView::Unsigned(0) || kind == JsonView::Unsigned(1) || kind
                == JsonView::Unsigned(5);
            &&& activity_in(raw) is Some <==> known && name is Some
            &&& activity_in(raw) matches Some(a) ==> {
                &&& JsonView::Unsigned(a.kind) == kind
                &&& Some(a.name) == name
                &&& a.details == details
                &&& state is Some && state != details ==> a.state == state
                &&& state is None || state == details ==> a.state is None
                &&& caption is Some && caption != name && caption != details && caption != a.state
                    ==> a.image_text == caption
                &&& caption is None || caption == name || caption == details || caption == a.state
                    ==> a.image_text is None
                &&& a.party == party_in(member(member(raw, "party"@), "size"@))
                &&& a.artwork == artwork_in(raw)
            }
        }),
{
}

/// A party is told where it is two whole numbers, the present one at most the largest, and that
/// one is from one to a hundred thousand.
pub proof fn law_parties_are_whole_numbers(value: JsonView, now: u64, most: u64)
    ensures
        party_in(value) == Some((now, most)) <==> value is List && value->List_0.len() >= 2
            && value->List_0[0] == JsonView::Unsigned(now) && value->List_0[1]
            == JsonView::Unsigned(most) && 1 <= most <= 100_000 && now <= most,
{
}

/// The picture of an activity is named by its application and its image, where both are IDs.
pub proof fn law_artwork_is_the_applications(raw: JsonView, app: Seq<char>, image: Seq<char>)
    requires
        member(raw, "application_id"@) == JsonView::Text(app),
        member(member(raw, "assets"@), "large_image"@) == JsonView::Text(image),
    ensures
        is_snowflake(app) && is_snowflake(image) ==> artwork_in(raw) == Some(
            AttachmentView {
                source: ImageSource::ActivityAsset,
                id: "asset:"@ + app + ":"@ + image,
                url: "https://cdn.discordapp.com/app-assets/"@ + app + "/"@ + image
                    + ".png?size=512"@,
                content_type: Some("image/png"@),
                size: 0,
            },
        ),
        !is_snowflake(app) || !is_snowflake(image) ==> artwork_in(raw) is None,
{
}

/// An ID is a positive number of 64 bits in decimal digits.
pub proof fn law_ids_are_numbers(text: Seq<char>)
    ensures
        is_snowflake(text) <==> 1 <= text.len() <= 20 && (forall|i: int|
            0 <= i < text.len() ==> 0x30 <= (#[trigger] text[i]) as u32 <= 0x39) && 1 <= value(text)
            <= 0xffff_ffff_ffff_ffff,
{
    if is_snowflake(text) {
        assert forall|i: int| 0 <= i < text.len() implies 0x30 <= (#[trigger] text[i]) as u32
            <= 0x39 by {
            assert(crate::text::digit(text[i]));
        }
    }
}

proof fn lemma_activities_in(raw: Seq<JsonView>)
    ensures
        forall|i: int|
            0 <= i < raw.len() && activity_in(#[trigger] raw[i]) is Some ==> activities_in(
                raw,
            ).contains(activity_in(raw[i])->0),
        forall|a: ActivityView| #[trigger]
            activities_in(raw).contains(a) ==> exists|i: int|
                0 <= i < raw.len() && activity_in(#[trigger] raw[i]) == Some(a),
        activities_in(raw).len() <= raw.len(),
    decreases raw.len(),
{
    if raw.len() > 0 {
        let front = raw.drop_last();
        lemma_activities_in(front);
        let before = activities_in(front);
        let after = activities_in(raw);
        assert forall|i: int|
            0 <= i < raw.len() && activity_in(#[trigger] raw[i]) is Some implies after.contains(
            activity_in(raw[i])->0,
        ) by {
            if i < front.len() {
                assert(front[i] == raw[i]);
                let a = activity_in(raw[i])->0;
                let k = before.index_of(a);
                assert(after[k] == a);
            } else {
                assert(after[after.len() - 1] == activity_in(raw[i])->0);
            }
        }
        assert forall|a: ActivityView| #[trigger] after.contains(a) implies exists|i: int|
            0 <= i < raw.len() && activity_in(#[trigger] raw[i]) == Some(a) by {
            let k = after.index_of(a);
            if k < before.len() {
                assert(before.contains(a));
                let i = choose|i: int|
                    0 <= i < front.len() && activity_in(#[trigger] front[i]) == Some(a);
                assert(activity_in(raw[i]) == Some(a));
            } else {
                assert(activity_in(raw[raw.len() - 1]) == Some(a));
            }
        }
    }
}

proof fn lemma_put_sorted(list: Seq<ActivityView>, a: ActivityView)
    requires
        forall|i: int, j: int|
            0 <= i < j < list.len() ==> !sooner(#[trigger] list[j], #[trigger] list[i]),
    ensures
        ({
            let out = crate::activity::put(list, a);
            &&& out.len() == list.len() + 1
            &&& forall|i: int, j: int|
                0 <= i < j < out.len() ==> !sooner(#[trigger] out[j], #[trigger] out[i])
            &&& forall|x: ActivityView| #[trigger]
                out.contains(x) ==> x == a || list.contains(x)
        }),
    decreases list.len(),
{
    let out = crate::activity::put(list, a);
    if list.len() > 0 && sooner(a, list.last()) {
        let front = list.drop_last();
        lemma_put_sorted(front, a);
        let inner = crate::activity::put(front, a);
        let last = list.last();
        crate::activity::lemma_sooner_total(a, last);
        assert forall|i: int, j: int| 0 <= i < j < out.len() implies !sooner(
            #[trigger] out[j],
            #[trigger] out[i],
        ) by {
            if j < inner.len() {
                assert(out[i] == inner[i] && out[j] == inner[j]);
            } else {
                assert(out[j] == last);
                assert(out[i] == inner[i]);
                assert(inner.contains(inner[i]));
                if inner[i] != a {
                    let k = front.index_of(inner[i]);
                    assert(list[k] == inner[i]);
                    assert(list[list.len() - 1] == last);
                }
            }
        }
        assert forall|x: ActivityView| #[trigger] out.contains(x) implies x == a || list.contains(
            x,
        ) by {
            let k = out.index_of(x);
            if k < inner.len() {
                assert(inner.contains(x));
                if x != a {
                    let m = front.index_of(x);
                    assert(list[m] == x);
                }
            } else {
                assert(list[list.len() - 1] == x);
            }
        }
    } else {
        assert forall|i: int, j: int| 0 <= i < j < out.len() implies !sooner(
            #[trigger] out[j],
            #[trigger] out[i],
        ) by {
            if j < list.len() {
                assert(out[i] == list[i] && out[j] == list[j]);
            } else if sooner(a, list[i]) {
                let last = list.last();
                assert(list[list.len() - 1] == last);
                if i < list.len() - 1 {
                    assert(!sooner(last, list[i]));
                    lemma_not_between(a, last, list[i]);
                }
            }
        }
        assert forall|x: ActivityView| #[trigger] out.contains(x) implies x == a || list.contains(
            x,
        ) by {
            let k = out.index_of(x);
            if k < list.len() {
                assert(list[k] == x);
            }
        }
    }
}

/// What comes before another comes before all that come no sooner than that.
proof fn lemma_not_between(a: ActivityView, last: ActivityView, x: ActivityView)
    requires
        sooner(a, x),
        !sooner(last, x),
    ensures
        sooner(a, last),
{
    crate::activity::lemma_sooner_total(last, x);
    if sooner(x, last) {
        crate::activity::lemma_sooner_transitive(a, x, last);
    } else {
        assert(last.kind == x.kind && last.name == x.name);
    }
}

proof fn lemma_arranged_sorted(list: Seq<ActivityView>)
    ensures
        forall|i: int, j: int|
            0 <= i < j < arranged(list).len() ==> !sooner(
                #[trigger] arranged(list)[j],
                #[trigger] arranged(list)[i],
            ),
    decreases list.len(),
{
    if list.len() > 0 {
        lemma_arranged_sorted(list.drop_last());
        lemma_put_sorted(arranged(list.drop_last()), list.last());
    }
}

/// Of what a person does, two activities at most are announced: all of them where there are no
/// more, and else the first two by kind and name. Each is one that Discord lists for that
/// person.
pub proof fn law_the_first_activities_are_kept(data: JsonView, user: Seq<char>)
    ensures
        ({
            let presence = first_where(items_in(data, "presences"@), of_user(user));
            let raw = items_in(presence->0, "activities"@);
            let all = activities_in(raw);
            let kept = activities_of(data, user);
            &&& presence is None ==> kept.len() == 0
            &&& presence is Some ==> {
                &&& kept.len() == (if all.len() <= 2 {
                    all.len()
                } else {
                    2
                })
                &&& forall|k: int|
                    0 <= k < kept.len() ==> exists|i: int|
                        0 <= i < raw.len() && activity_in(#[trigger] raw[i]) == Some(
                            #[trigger] kept[k],
                        )
                &&& forall|i: int|
                    0 <= i < raw.len() && activity_in(#[trigger] raw[i]) is Some ==> {
                        let a = activity_in(raw[i])->0;
                        kept.contains(a) || forall|k: int|
                            0 <= k < kept.len() ==> !sooner(a, #[trigger] kept[k])
                    }
                &&& kept.len() == 2 ==> !sooner(kept[1], kept[0])
            }
        }),
{
    let presence = first_where(items_in(data, "presences"@), of_user(user));
    let kept = activities_of(data, user);
    if presence is Some {
        let raw = items_in(presence->0, "activities"@);
        let all = activities_in(raw);
        let sorted = arranged(all);
        lemma_activities_in(raw);
        lemma_arranged(all);
        lemma_arranged_sorted(all);
        assert forall|k: int| 0 <= k < kept.len() implies exists|i: int|
            0 <= i < raw.len() && activity_in(#[trigger] raw[i]) == Some(#[trigger] kept[k]) by {
            assert(kept[k] == sorted[k]);
            assert(sorted.contains(kept[k]));
            assert(all.contains(kept[k]));
        }
        assert forall|i: int| 0 <= i < raw.len() && activity_in(#[trigger] raw[i]) is Some implies ({
            let a = activity_in(raw[i])->0;
            kept.contains(a) || forall|k: int|
                0 <= k < kept.len() ==> !sooner(a, #[trigger] kept[k])
        }) by {
            let a = activity_in(raw[i])->0;
            assert(all.contains(a));
            assert(sorted.contains(a));
            let m = sorted.index_of(a);
            if m < kept.len() {
                assert(kept[m] == a);
            } else {
                assert forall|k: int| 0 <= k < kept.len() implies !sooner(a, #[trigger] kept[k]) by {
                    assert(kept[k] == sorted[k]);
                    assert(sorted[m] == a);
                }
            }
        }
    } else {
        assert(activities_in(Seq::<JsonView>::empty()).len() == 0);
        lemma_arranged(Seq::<ActivityView>::empty());
    }
}

/// Activities come by kind, and by name within a kind.
pub proof fn law_games_come_first(a: ActivityView, b: ActivityView)
    ensures
        a.kind < b.kind ==> sooner(a, b) && !sooner(b, a),
        a.kind == b.kind ==> (sooner(a, b) <==> crate::table::precedes(a.name, b.name)),
{
}

/// Whether a voice state shows somebody in a channel who is no bot.
pub open spec fn counts(data: JsonView, channel: Seq<char>, state: JsonView) -> bool {
    &&& member(state, "channel_id"@) == JsonView::Text(channel)
    &&& forall|i: int|
        0 <= i < items_in(data, "members"@).len() ==> {
            let user = member(#[trigger] items_in(data, "members"@)[i], "user"@);
            !(equal_values(member(user, "id"@), member(state, "user_id"@)) && member(user, "bot"@)
                == JsonView::Bool(true))
        }
}

/// The context of a stream is of its own channel and its own person: the channel's name, as many
/// participants as voice states show in the channel, bots left out, and what that person does.
pub proof fn law_contexts_are_of_their_channel(
    data: JsonView,
    user: Seq<char>,
    channel: Seq<char>,
)
    ensures
        ({
            let c = context_of(data, user, channel);
            &&& c.voice_members.len() == 0
            &&& c.avatars.len() == 0
            &&& c.channel_name == channel_name(data, channel)
            &&& c.participants == items_in(data, "voice_states"@).filter(
                |state: JsonView| counts(data, channel, state),
            ).len()
            &&& c.activities == activities_of(data, user)
        }),
{
    let members = items_in(data, "members"@);
    assert forall|state: JsonView|
        person_in(members, channel)(state) == #[trigger] counts(data, channel, state) by {}
    assert(person_in(members, channel) =~= (|state: JsonView| counts(data, channel, state)));
}

/// A channel is called by the name that the first entry with its ID gives.
pub proof fn law_channels_are_called_by_their_names(
    data: JsonView,
    channel: Seq<char>,
    i: int,
    name: Seq<char>,
)
    requires
        0 <= i < items_in(data, "channels"@).len(),
        member(items_in(data, "channels"@)[i], "id"@) == JsonView::Text(channel),
        forall|j: int|
            0 <= j < i ==> member(#[trigger] items_in(data, "channels"@)[j], "id"@)
                != JsonView::Text(channel),
        member(items_in(data, "channels"@)[i], "name"@) == JsonView::Text(name),
    ensures
        channel_name(data, channel) == cleaned(name, 40),
{
    let items = items_in(data, "channels"@);
    let test = crate::activity::has_id(channel);
    law_the_first_is_found(items, test);
    assert(test(items[i]));
    let found = first_where(items, test)->0;
    let k = choose|k: int|
        0 <= k < items.len() && #[trigger] items[k] == found && test(found) && forall|j: int|
            0 <= j < k ==> !test(#[trigger] items[j]);
    if k < i {
        assert(test(items[k]));
    } else if i < k {
        assert(!test(items[i]));
    }
}

/// The fingerprint of a context is the digest of the channel and of all that is announced.
pub proof fn law_fingerprints_are_digests(c: StreamContextView, channel: Seq<char>)
    ensures
        fingerprint_of(c, channel) == lower_hex(
            sha256_of(encode_utf8(json_text(context_json(c, channel)))),
        ),
{
}

/// The picture of a stream is that of its first activity that has one.
pub proof fn law_the_first_artwork_is_shown(list: Seq<ActivityView>)
    ensures
        first_artwork(list) matches Some(image) ==> exists|i: int|
            0 <= i < list.len() && (#[trigger] list[i]).artwork == Some(image) && forall|j: int|
                0 <= j < i ==> (#[trigger] list[j]).artwork is None,
        first_artwork(list) is None <==> forall|i: int|
            0 <= i < list.len() ==> (#[trigger] list[i]).artwork is None,
    decreases list.len(),
{
    if list.len() > 0 {
        if list[0].artwork is Some {
            assert(list[0].artwork == first_artwork(list));
        } else {
            let rest = list.drop_first();
            law_the_first_artwork_is_shown(rest);
            assert forall|i: int| 0 <= i < rest.len() implies #[trigger] rest[i] == list[i + 1] by {}
            if first_artwork(list) is Some {
                let image = first_artwork(list)->0;
                let i = choose|i: int|
                    0 <= i < rest.len() && (#[trigger] rest[i]).artwork == Some(image) && forall|
                        j: int,
                    |
                        0 <= j < i ==> (#[trigger] rest[j]).artwork is None;
                assert(list[i + 1].artwork == Some(image));
                assert forall|j: int| 0 <= j < i + 1 implies (#[trigger] list[j]).artwork is None by {
                    if j > 0 {
                        assert(rest[j - 1].artwork is None);
                    }
                }
            } else {
                assert forall|i: int| 0 <= i < list.len() implies (
                #[trigger] list[i]).artwork is None by {
                    if i > 0 {
                        assert(rest[i - 1].artwork is None);
                    }
                }
            }
        }
    }
}

} // verus!
