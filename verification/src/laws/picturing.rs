//! How a call is pictured: whose portraits are shown, what a card says, and which images are
//! taken.
use vstd::prelude::*;
use vstd::string::*;

use crate::activity::is_snowflake;
use crate::avatars::{
    card_text, default_portrait, is_hash, member_result, on_figure, participant_text, shown_name,
    url_error, AvatarError, AvatarView,
};
use crate::card::{
    columns_of, game_items, heading_items, height_of, left_of, live_count, people_items,
    person_items, pictures, status_items, top_of, width_of, CardError, ItemView, Picture,
};
use crate::discord::cleaned;
use crate::json::{member, JsonView};
use crate::laws::reading::law_texts_are_joined_in_order;
use crate::mastodon::{asset_error, attachment_error, MastodonError};
use crate::number::{decimal, parsed, value};
use crate::portraits::{
    all_portraits, arranges, decoded, dimensions_of, missing_in, placeholder_pixels, portrait_of,
    shown, stand_in, Collage, Sampling,
};
use crate::text::{before, behind, find, join, lemma_find, pieces};
use crate::url::UrlView;

verus! {

/// Whether a text is so many hexadecimal digits.
pub open spec fn is_hex_text(text: Seq<char>, n: int) -> bool {
    &&& text.len() == n
    &&& forall|i: int|
        0 <= i < text.len() ==> {
            let c = (#[trigger] text[i]) as u32;
            0x30 <= c <= 0x39 || 0x41 <= c <= 0x46 || 0x61 <= c <= 0x66
        }
}

/// The name of a portrait is thirty-two hexadecimal digits, behind a mark where it moves.
pub proof fn law_portraits_are_named_by_hashes(text: Seq<char>)
    ensures
        is_hash(text) <==> is_hex_text(text, 32) || "a_"@.is_prefix_of(text) && is_hex_text(
            text.skip(2),
            32,
        ),
{
    reveal_strlit("a_");
    let mark = "a_"@;
    if mark.len() <= text.len() {
        assert(text.take(2) == text.subrange(0, 2));
    }
    if mark.is_prefix_of(text) {
        assert(text.subrange(0, 2)[1] == text[1]);
        assert(text[1] == '_');
        assert(text[1] as u32 == 0x5f);
    }
}

/// A member is shown with the portrait that they have on the server, else with that of their
/// account, else with the one that the service draws for their number; under the name that they
/// are called by there, made safe, in at most sixty characters.
pub proof fn law_members_are_shown_as_they_are(
    person: JsonView,
    guild: Seq<char>,
    id: Seq<char>,
    own: Seq<char>,
    account: Seq<char>,
)
    requires
        member(member(person, "user"@), "id"@) == JsonView::Text(id),
        is_snowflake(id),
    ensures
        member_result(person, guild) matches Ok(a) && {
            let on_server = member(person, "avatar"@);
            let on_account = member(member(person, "user"@), "avatar"@);
            let has_own = on_server is Text && is_hash(on_server->Text_0) && is_snowflake(guild);
            let has_account = on_account is Text && is_hash(on_account->Text_0);
            &&& a.name == cleaned(shown_name(person, "Discord参加者"@), 60)
            &&& !a.streaming
            &&& a.game is None
            &&& on_server == JsonView::Text(own) && has_own ==> a.url
                == "https://cdn.discordapp.com/"@ + ("guilds/"@ + guild + "/users/"@ + id
                + "/avatars/"@ + own + ".png"@) + "?size=128"@
            &&& !has_own && on_account == JsonView::Text(account) && has_account ==> a.url
                == "https://cdn.discordapp.com/"@ + ("avatars/"@ + id + "/"@ + account + ".png"@)
                + "?size=128"@
            &&& !has_own && !has_account ==> a.url == "https://cdn.discordapp.com/"@ + (
            "embed/avatars/"@ + decimal(default_portrait(id, member(person, "user"@))) + ".png"@)
                + "?size=128"@
        },
{
}

/// Who has no id, or one that is none, cannot be shown.
pub proof fn law_members_without_ids_are_not_shown(person: JsonView, guild: Seq<char>)
    ensures
        ({
            let id = member(member(person, "user"@), "id"@);
            &&& !(id is Text) ==> member_result(person, guild) == Err::<AvatarView, AvatarError>(
                AvatarError::MissingId,
            )
            &&& id is Text && !is_snowflake(id->Text_0) ==> member_result(person, guild) == Err::<
                AvatarView,
                AvatarError,
            >(AvatarError::InvalidId)
        }),
{
}

/// The portrait that the service draws goes by the number behind a name where there is one, and
/// else by the time in the id; it is one of six.
pub proof fn law_drawn_portraits_go_by_the_number(id: Seq<char>, user: JsonView, text: Seq<char>)
    ensures
        default_portrait(id, user) < 6,
        member(user, "discriminator"@) == JsonView::Text(text) && parsed(text) is Some && parsed(
            text,
        )->0 != 0 ==> default_portrait(id, user) == parsed(text)->0 % 5,
        !(member(user, "discriminator"@) is Text) ==> default_portrait(id, user) == value(id)
            / 4_194_304 % 6,
        member(user, "discriminator"@) == JsonView::Text(text) && (parsed(text) is None
            || parsed(text)->0 == 0) ==> default_portrait(id, user) == value(id) / 4_194_304 % 6,
{
}

/// Whether an address is reached in confidence at a host, under no name.
pub open spec fn is_at(url: UrlView, host: Seq<char>) -> bool {
    &&& url.scheme == "https"@
    &&& url.host == Some(host)
    &&& url.port == Some(443u16)
    &&& url.username.len() == 0
    &&& url.password is None
}

/// Whether a file is named so, as an image.
pub open spec fn is_file_of(file: Seq<char>, name: Seq<char>) -> bool {
    file == name + ".png"@
}

/// Images of messages are taken from where the service keeps attachments, and from nowhere
/// else.
pub proof fn law_only_attachments_are_taken(url: UrlView)
    ensures
        attachment_error(Some(url)) is None <==> (is_at(url, "cdn.discordapp.com"@) || is_at(
            url,
            "media.discordapp.net"@,
        )) && "/attachments/"@.is_prefix_of(url.path),
        attachment_error(Some(url)) is Some ==> attachment_error(Some(url)) == Some(
            MastodonError::AttachmentHost,
        ),
        attachment_error(None) == Some(MastodonError::AttachmentUrl),
{
    let start = "/attachments/"@;
    if start.len() <= url.path.len() {
        assert(url.path.take(start.len() as int) == url.path.subrange(0, start.len() as int));
    }
}

proof fn lemma_file_of(file: Seq<char>, name: Seq<char>)
    ensures
        before(file, ".png"@) == Some(name) <==> is_file_of(file, name),
{
    let end = ".png"@;
    if before(file, end) == Some(name) {
        assert(file == file.take(file.len() - end.len()) + file.skip(file.len() - end.len()));
    }
    if is_file_of(file, name) {
        assert(file.skip(file.len() - end.len()) == end);
        assert(file.take(file.len() - end.len()) == name);
    }
}

/// The artwork of an activity is taken from where the service keeps that of its applications:
/// under the id of the application, as a file that is named by an id.
pub proof fn law_only_artwork_is_taken(
    url: UrlView,
    root: Seq<char>,
    app: Seq<char>,
    file: Seq<char>,
    image: Seq<char>,
)
    ensures
        is_at(url, "cdn.discordapp.com"@) && pieces(url.path, '/') == seq![
            root,
            "app-assets"@,
            app,
            file,
        ] && is_file_of(file, image) && is_snowflake(app) && is_snowflake(image) ==> asset_error(
            Some(url),
        ) is None,
        asset_error(Some(url)) is None ==> {
            let parts = pieces(url.path, '/');
            &&& is_at(url, "cdn.discordapp.com"@)
            &&& parts.len() == 4
            &&& parts[1] == "app-assets"@
            &&& is_snowflake(parts[2])
            &&& parts[3].len() > 4
            &&& is_snowflake(parts[3].take(parts[3].len() - 4))
            &&& parts[3].skip(parts[3].len() - 4) == ".png"@
        },
        asset_error(Some(url)) is Some ==> asset_error(Some(url)) == Some(MastodonError::AssetHost),
        asset_error(None) == Some(MastodonError::AssetUrl),
{
    lemma_file_of(file, image);
    reveal_strlit(".png");
}

/// Portraits are taken from where the service keeps those of its accounts, of the members of
/// its servers, and those that it draws, and from nowhere else.
pub proof fn law_only_portraits_are_taken(url: UrlView)
    ensures
        url_error(None) == Some(AvatarError::NoUrl),
        !is_at(url, "cdn.discordapp.com"@) ==> url_error(Some(url)) == Some(AvatarError::Host),
        is_at(url, "cdn.discordapp.com"@) && url_error(Some(url)) is Some ==> url_error(Some(url))
            == Some(AvatarError::Path),
        url_error(Some(url)) is None ==> {
            let parts = pieces(behind(url.path, '/'), '/');
            let file = parts[parts.len() - 1];
            let name = file.take(file.len() - 4);
            &&& is_at(url, "cdn.discordapp.com"@)
            &&& file.len() > 4
            &&& file.skip(file.len() - 4) == ".png"@
            &&& {
                ||| parts.len() == 3 && parts[0] == "avatars"@ && is_snowflake(parts[1])
                    && is_hash(name)
                ||| parts.len() == 6 && parts[0] == "guilds"@ && is_snowflake(parts[1])
                    && parts[2] == "users"@ && is_snowflake(parts[3]) && parts[4] == "avatars"@
                    && is_hash(name)
                ||| parts.len() == 3 && parts[0] == "embed"@ && parts[1] == "avatars"@
                    && name.len() == 1 && 0x30 <= name[0] as u32 <= 0x35
            }
        },
{
    reveal_strlit(".png");
    reveal_strlit("0");
    reveal_strlit("1");
    reveal_strlit("2");
    reveal_strlit("3");
    reveal_strlit("4");
    reveal_strlit("5");
}

/// What stands between separators is split at each of them, and nothing is lost: put together
/// again it is the text.
pub proof fn law_texts_are_split_at_every_separator(text: Seq<char>, c: char)
    ensures
        pieces(text, c).len() > 0,
        join(pieces(text, c), seq![c]) == text,
        forall|i: int|
            0 <= i < pieces(text, c).len() ==> !(#[trigger] pieces(text, c)[i]).contains(c),
    decreases text.len(),
{
    let n = find(text, c) as int;
    lemma_find(text, c);
    if n < text.len() {
        let rest = text.skip(n + 1);
        law_texts_are_split_at_every_separator(rest, c);
        let one = text.take(n);
        law_texts_are_joined_in_order(seq![one], pieces(rest, c), seq![c], one);
        assert(text == one + seq![c] + rest);
        assert forall|i: int| 0 <= i < pieces(text, c).len() implies !(#[trigger] pieces(
            text,
            c,
        )[i]).contains(c) by {
            if i > 0 {
                assert(pieces(text, c)[i] == pieces(rest, c)[i - 1]);
            } else {
                assert(!one.contains(c));
            }
        }
    } else {
        law_texts_are_joined_in_order(seq![text], seq![text], seq![c], text);
        assert(pieces(text, c)[0] == text);
    }
}

/// Whether a text stands in another.
pub open spec fn stands_in(part: Seq<char>, whole: Seq<char>) -> bool {
    exists|left: Seq<char>, right: Seq<char>| whole == #[trigger] ((left + part) + right)
}

proof fn lemma_stands_in(part: Seq<char>, whole: Seq<char>, left: Seq<char>, right: Seq<char>)
    requires
        whole == left + part + right,
    ensures
        stands_in(part, whole),
{
    assert(whole == (left + part) + right);
}

proof fn lemma_joined_holds(parts: Seq<Seq<char>>, separator: Seq<char>, i: int)
    requires
        0 <= i < parts.len(),
    ensures
        stands_in(parts[i], join(parts, separator)),
{
    let one = parts[i];
    let before = parts.take(i);
    let behind = parts.skip(i + 1);
    let none = Seq::<char>::empty();
    law_texts_are_joined_in_order(seq![one], behind, separator, one);
    assert(parts == before + (seq![one] + behind));
    law_texts_are_joined_in_order(before, seq![one] + behind, separator, one);
    let tail = if behind.len() > 0 {
        separator + join(behind, separator)
    } else {
        none
    };
    if behind.len() == 0 {
        assert(seq![one] + behind == seq![one]);
    }
    assert(join(seq![one] + behind, separator) == one + tail);
    let head = if i > 0 {
        join(before, separator) + separator
    } else {
        none
    };
    if i == 0 {
        assert(before + (seq![one] + behind) == seq![one] + behind);
    }
    assert(join(parts, separator) == head + one + tail);
    lemma_stands_in(one, join(parts, separator), head, tail);
}

/// Everybody on a card is told of in its description: by name, with whether they stream, and
/// what they play if that is known; and that a portrait is missing is said where one is.
pub proof fn law_everybody_on_a_card_is_told_of(avatars: Seq<AvatarView>, missing: nat, i: int)
    requires
        0 <= i < avatars.len(),
    ensures
        ({
            let a = avatars[i];
            let doing = if a.streaming {
                a.name + "："@ + "配信中"@
            } else {
                a.name + "："@ + "通話中"@
            };
            &&& a.game is None ==> stands_in(doing, card_text(avatars, missing))
            &&& a.game matches Some(game) ==> stands_in(
                doing + ("、プレイ中："@ + game),
                card_text(avatars, missing),
            )
            &&& stands_in(a.name, join(avatars.map_values(|b: AvatarView| b.name), "、"@))
            &&& "通話参加者（左から右、上から下）："@.is_prefix_of(card_text(avatars, missing))
            &&& missing == 0 ==> card_text(avatars, 1) == card_text(avatars, 0)
                + "。取得できないアイコンは灰色の人型で表示"@
            &&& missing > 0 ==> card_text(avatars, missing) == card_text(avatars, 1)
        }),
{
    let names = avatars.map_values(|b: AvatarView| b.name);
    let notes = avatars.map_values(|b: AvatarView| participant_text(b));
    lemma_joined_holds(names, "、"@, i);
    assert(names[i] == avatars[i].name);
    lemma_joined_holds(notes, "。"@, i);
    let note = participant_text(avatars[i]);
    assert(notes[i] == note);
    let all = join(notes, "。"@);
    let (left, right) = choose|left: Seq<char>, right: Seq<char>|
        all == #[trigger] ((left + note) + right);
    let head = "通話参加者（左から右、上から下）："@ + join(names, "、"@) + "。"@;
    let tail = if missing > 0 {
        "。取得できないアイコンは灰色の人型で表示"@
    } else {
        Seq::empty()
    };
    assert(card_text(avatars, missing) == head + all + tail);
    assert(card_text(avatars, missing) == (head + left) + note + (right + tail));
    lemma_stands_in(note, card_text(avatars, missing), head + left, right + tail);
    let a = avatars[i];
    let doing = if a.streaming {
        a.name + "："@ + "配信中"@
    } else {
        a.name + "："@ + "通話中"@
    };
    if a.game is None {
        assert(note == doing);
    } else {
        assert(note == doing + ("、プレイ中："@ + a.game->0));
    }
    let start = "通話参加者（左から右、上から下）："@;
    let text = card_text(avatars, missing);
    assert(text.subrange(0, start.len() as int) == start);
    if missing == 0 {
        assert(card_text(avatars, 1) == card_text(avatars, 0)
            + "。取得できないアイコンは灰色の人型で表示"@);
    }
}

/// Each participant is shown with their own portrait, or with the grey figure where it could not
/// be had, in order; as many are missing as could not be had.
pub proof fn law_every_participant_has_a_portrait(portraits: Seq<Option<Seq<u8>>>)
    ensures
        shown(portraits).len() == portraits.len(),
        forall|i: int|
            0 <= i < portraits.len() ==> #[trigger] shown(portraits)[i] == (match portraits[i] {
                Some(pixels) => pixels,
                None => placeholder_pixels(),
            }),
        missing_in(portraits) == portraits.filter(|p: Option<Seq<u8>>| p is None).len(),
    decreases portraits.len(),
{
    reveal(Seq::filter);
    if portraits.len() > 0 {
        law_every_participant_has_a_portrait(portraits.drop_last());
    }
}

/// A portrait is what was downloaded, decoded within bounds and brought to its size; what could
/// not be downloaded, is no image or has no pixels is no portrait.
pub proof fn law_portraits_are_what_was_downloaded(downloads: Seq<Option<Seq<u8>>>, i: int)
    requires
        0 <= i < downloads.len(),
    ensures
        all_portraits(downloads).len() == downloads.len(),
        all_portraits(downloads)[i] == portrait_of(downloads[i]),
        downloads[i] is None ==> portrait_of(downloads[i]) is None,
        downloads[i] matches Some(bytes) ==> match dimensions_of(bytes) {
            Some((width, height)) => if width > 0 && height > 0 {
                portrait_of(downloads[i]) == decoded(
                    bytes,
                    1024,
                    8_388_608,
                    128,
                    Sampling::Triangle,
                )
            } else {
                portrait_of(downloads[i]) is None
            },
            None => portrait_of(downloads[i]) is None,
        },
{
}

/// The figure that stands for a missing portrait is a head above shoulders, the same to the left
/// and to the right, light on dark.
pub proof fn law_the_figure_is_a_head_above_shoulders(x: int, y: int)
    ensures
        on_figure(64 + x, y) == on_figure(64 - x, y),
        y <= 73 ==> (on_figure(64 + x, y) <==> x * x + (y - 43) * (y - 43) < 20 * 20),
        y > 73 ==> (on_figure(64 + x, y) <==> x * x + (y - 110) * (y - 110) < 40 * 40),
        stand_in(x, y).len() == 4,
        stand_in(x, y)[3] == 255,
        on_figure(x, y) ==> stand_in(x, y) == seq![210u8, 215, 225, 255],
        !on_figure(x, y) ==> stand_in(x, y) == seq![74u8, 82, 101, 255],
        0 <= x < 128 && 0 <= y < 128 ==> forall|c: int|
            0 <= c < 4 ==> placeholder_pixels()[#[trigger] (4 * (128 * y + x) + c)] == stand_in(
                x,
                y,
            )[c],
        placeholder_pixels().len() == 4 * 128 * 128,
{
    assert((-x) * (-x) == x * x) by (nonlinear_arith);
    if y > 73 && x * x + (y - 43) * (y - 43) < 400 {
        assert((y - 110) * (y - 110) <= (y - 43) * (y - 43) + 1200) by (nonlinear_arith)
            requires
                y > 73,
        ;
    }
    if 0 <= x < 128 && 0 <= y < 128 {
        assert forall|c: int| 0 <= c < 4 implies placeholder_pixels()[#[trigger] (4 * (128 * y + x)
            + c)] == stand_in(x, y)[c] by {
            let i = 4 * (128 * y + x) + c;
            assert(i / 4 == 128 * y + x);
            assert(i % 4 == c);
            assert((128 * y + x) % 128 == x);
            assert((128 * y + x) / 128 == y);
            assert(0 <= i < 65_536);
        }
    }
}

/// Cards stand in rows, from left to right and from top to bottom, at even distances: two in a
/// row, or three, or four, by how many there are.
pub proof fn law_cards_stand_in_rows(count: int, i: int)
    requires
        2 <= count <= 256,
        0 <= i < count,
    ensures
        count == 2 || count == 4 ==> columns_of(count) == 2,
        count == 3 || 5 <= count <= 9 ==> columns_of(count) == 3,
        count >= 10 ==> columns_of(count) == 4,
        left_of(count, 0) == 24,
        top_of(count, 0) == 88,
        (i + 1) % columns_of(count) != 0 ==> left_of(count, i + 1) == left_of(count, i) + 320
            && top_of(count, i + 1) == top_of(count, i),
        (i + 1) % columns_of(count) == 0 ==> left_of(count, i + 1) == 24 && top_of(count, i + 1)
            == top_of(count, i) + 192,
        width_of(count) == 24 + columns_of(count) * 320 - 16 + 24,
        height_of(count) == top_of(count, count - 1) + 176 + 24,
{
    let c = columns_of(count);
    if c == 2 {
    } else if c == 3 {
    } else {
    }
}

/// Everybody in a call is drawn on a card of their own: with their own portrait, their name, what
/// they do, and what they play if that is known.
pub proof fn law_everybody_is_drawn(person: AvatarView, i: int, left: int, top: int)
    ensures
        ({
            let items = person_items(person, i, left, top);
            &&& items.contains(ItemView::Portrait { index: i, x: left + 20, y: top + 20, size: 64 })
            &&& exists|k: int|
                0 <= k < items.len() && (#[trigger] items[k] matches ItemView::Label {
                    value,
                    size,
                    ..
                } && value == person.name && size == 23)
            &&& says(items, if person.streaming {
                "配信中"@
            } else {
                "通話中"@
            })
            &&& person.game matches Some(game) ==> says(items, "プレイ中："@ + game)
            &&& items.len() == (if person.streaming {
                6int
            } else {
                4
            }) + (if person.game is Some {
                1int
            } else {
                0
            })
        }),
{
    let items = person_items(person, i, left, top);
    let status = status_items(person.streaming, left, top);
    let n = status.len() as int;
    assert(items[1] == (ItemView::Portrait { index: i, x: left + 20, y: top + 20, size: 64 }));
    assert(items[2 + n - 1] == status[n - 1]);
    assert(items[2 + n] is Label);
    if person.game is Some {
        assert(items[3 + n] == game_items(person.game, left, top)[0]);
    }
}

/// Whether something that is drawn says this.
pub open spec fn says(items: Seq<ItemView>, text: Seq<char>) -> bool {
    exists|k: int|
        0 <= k < items.len() && (#[trigger] items[k] matches ItemView::Label { value, .. } && value
            == text)
}

/// On a picture everybody's card is where it belongs, with all that is drawn on it.
pub proof fn law_everybody_is_on_the_picture(people: Seq<AvatarView>, n: int, i: int, k: int)
    requires
        0 <= i < n <= people.len(),
        0 <= k < person_items(
            people[i],
            i,
            left_of(people.len() as int, i),
            top_of(people.len() as int, i),
        ).len(),
    ensures
        people_items(people, n).contains(
            person_items(
                people[i],
                i,
                left_of(people.len() as int, i),
                top_of(people.len() as int, i),
            )[k],
        ),
    decreases n,
{
    let count = people.len() as int;
    let own = person_items(people[i], i, left_of(count, i), top_of(count, i));
    let rest = people_items(people, n - 1);
    if i == n - 1 {
        assert(people_items(people, n)[rest.len() + k] == own[k]);
    } else {
        law_everybody_is_on_the_picture(people, n - 1, i, k);
        let at = choose|at: int| 0 <= at < rest.len() && rest[at] == own[k];
        assert(people_items(people, n)[at] == own[k]);
    }
}

/// The heading counts everybody, and those who stream.
pub proof fn law_the_heading_counts_everybody(people: Seq<AvatarView>)
    ensures
        says(
            heading_items(people),
            decimal(people.len()) + "人参加  ·  配信中 "@ + decimal(
                people.filter(|p: AvatarView| p.streaming).len(),
            ) + "人"@,
        ),
        says(heading_items(people), "通話のようす"@),
{
    let items = heading_items(people);
    assert(live_count(people) == people.filter(|p: AvatarView| p.streaming).len());
    assert(items[0] is Label);
    assert(items[1] is Label);
}

/// A call is pictured where there are two to two hundred and fifty-six people with an image
/// each; the picture shows everybody, and is as large as their cards need.
pub proof fn law_a_call_is_pictured(
    r: Result<Picture, CardError>,
    people: Seq<AvatarView>,
    images: nat,
)
    requires
        pictures(r, people, images),
    ensures
        r is Ok <==> images == people.len() && 2 <= people.len() <= 256,
        r matches Err(e) ==> (e is Mismatch <==> images != people.len()),
        r matches Ok(picture) ==> {
            let items = picture.items.deep_view();
            let count = people.len() as int;
            &&& forall|i: int, k: int|
                0 <= i < people.len() && 0 <= k < person_items(
                    people[i],
                    i,
                    left_of(count, i),
                    top_of(count, i),
                ).len() ==> items.contains(
                    #[trigger] person_items(people[i], i, left_of(count, i), top_of(count, i))[k],
                )
            &&& forall|k: int|
                0 <= k < heading_items(people).len() ==> items.contains(
                    #[trigger] heading_items(people)[k],
                )
            &&& picture.width == width_of(count)
            &&& picture.height == height_of(count)
        },
{
    if r is Ok {
        let items = r->Ok_0.items.deep_view();
        let count = people.len() as int;
        let top = heading_items(people);
        let rest = people_items(people, count);
        assert forall|i: int, k: int|
            0 <= i < people.len() && 0 <= k < person_items(
                people[i],
                i,
                left_of(count, i),
                top_of(count, i),
            ).len() implies items.contains(
            #[trigger] person_items(people[i], i, left_of(count, i), top_of(count, i))[k],
        ) by {
            let item = person_items(people[i], i, left_of(count, i), top_of(count, i))[k];
            law_everybody_is_on_the_picture(people, count, i, k);
            let at = choose|at: int| 0 <= at < rest.len() && rest[at] == item;
            assert(items[top.len() + at] == item);
        }
        assert forall|k: int| 0 <= k < top.len() implies items.contains(#[trigger] top[k]) by {
            assert(items[k] == top[k]);
        }
    }
}

/// A collage shows everybody in order, tells how many portraits are missing, and is described by
/// what it shows, in at most fifteen hundred characters.
pub proof fn law_a_collage_shows_everybody(
    r: Result<Collage, AvatarError>,
    avatars: Seq<AvatarView>,
    downloads: Seq<Option<Seq<u8>>>,
)
    requires
        arranges(r, avatars, downloads),
        avatars.len() == downloads.len(),
    ensures
        r is Ok <==> 2 <= avatars.len() <= 256,
        r matches Ok(card) ==> {
            let images = card.images.deep_view();
            let missing = downloads.map_values(|d: Option<Seq<u8>>| portrait_of(d)).filter(
                |p: Option<Seq<u8>>| p is None,
            ).len();
            let text = card_text(avatars, missing);
            &&& images.len() == avatars.len()
            &&& forall|i: int|
                0 <= i < avatars.len() ==> #[trigger] images[i] == (match portrait_of(
                    downloads[i],
                ) {
                    Some(pixels) => pixels,
                    None => placeholder_pixels(),
                })
            &&& card.missing == missing
            &&& card.description@.is_prefix_of(text)
            &&& card.description@.len() == (if text.len() <= 1500 {
                text.len() as int
            } else {
                1500
            })
        },
{
    if r is Ok {
        let card = r->Ok_0;
        let portraits = all_portraits(downloads);
        assert(portraits == downloads.map_values(|d: Option<Seq<u8>>| portrait_of(d)));
        law_every_participant_has_a_portrait(portraits);
        let images = card.images.deep_view();
        assert forall|i: int| 0 <= i < avatars.len() implies #[trigger] images[i] == (
        match portrait_of(downloads[i]) {
            Some(pixels) => pixels,
            None => placeholder_pixels(),
        }) by {
            assert(portraits[i] == portrait_of(downloads[i]));
        }
        let text = card_text(avatars, missing_in(portraits));
        assert(text.subrange(0, text.len() as int) == text);
        if text.len() > 1500 {
            assert(text.take(1500) == text.subrange(0, 1500));
        }
    }
}

} // verus!
