//! Metadata that Discord publishes by itself. What a person plays is no proof of what they
//! share.
use vstd::prelude::*;
use vstd::string::*;
use vstd::utf8::encode_utf8;

use crate::avatars::{clone_avatars, Avatar, AvatarView};
use crate::digest::{sha256, sha256_of};
use crate::discord::{
    clean, cleaned, clone_text, clone_texts, Attachment, AttachmentView, ImageSource,
};
use crate::json::{
    equal_values, json_text, list_in, member, member_views, named, text_in, unsigned_in, views,
    Json, JsonView, Member,
};
use crate::notation::{law_text_tells_values_apart, well_written};
use crate::number::{
    all_digits, decimal, decimal_text, hex_text, is_digest, lemma_digest, lower_hex, parse_u64,
    value,
};
use crate::table::{
    lemma_precedes_total, lemma_precedes_transitive, less, precedes,
};
use crate::text::{
    blank, chars_of, is_blank, is_digit, join, join_texts, prefix, same,
};

verus! {

/// A Discord ID: a positive 64-bit number of at most twenty decimal digits.
pub open spec fn is_snowflake(text: Seq<char>) -> bool {
    &&& 1 <= text.len() <= 20
    &&& all_digits(text)
    &&& 0 < value(text) <= u64::MAX
}

pub fn snowflake(text: &str) -> (r: bool)
    ensures
        r == is_snowflake(text@),
{
    let chars = chars_of(text);
    if chars.len() == 0 || chars.len() > 20 {
        return false;
    }
    for i in 0..chars.len()
        invariant
            chars@ == text@,
            forall|j: int| 0 <= j < i ==> crate::text::digit(#[trigger] text@[j]),
    {
        if !is_digit(chars[i]) {
            assert(!crate::text::digit(text@[i as int]));
            return false;
        }
    }
    assert(crate::text::digit(text@[0]));
    match parse_u64(text) {
        Some(n) => n > 0,
        None => false,
    }
}

/// What is known of a call in a voice channel.
#[derive(Debug)]
pub struct StreamContext {
    /// Nonempty only for an occupied channel without a human stream.
    pub voice_members: Vec<String>,
    /// The participants that a card can show.
    pub avatars: Vec<Avatar>,
    pub channel_name: String,
    pub participants: usize,
    pub activities: Vec<Activity>,
}

/// Something that a person does, as Discord shows it.
#[derive(Debug)]
pub struct Activity {
    pub name: String,
    pub kind: u64,
    pub details: Option<String>,
    pub state: Option<String>,
    pub image_text: Option<String>,
    pub party: Option<(u64, u64)>,
    pub artwork: Option<Attachment>,
}

pub struct ActivityView {
    pub name: Seq<char>,
    pub kind: u64,
    pub details: Option<Seq<char>>,
    pub state: Option<Seq<char>>,
    pub image_text: Option<Seq<char>>,
    pub party: Option<(u64, u64)>,
    pub artwork: Option<AttachmentView>,
}

impl View for Activity {
    type V = ActivityView;

    open spec fn view(&self) -> ActivityView {
        ActivityView {
            name: self.name@,
            kind: self.kind,
            details: self.details.deep_view(),
            state: self.state.deep_view(),
            image_text: self.image_text.deep_view(),
            party: self.party,
            artwork: self.artwork.deep_view(),
        }
    }
}

impl DeepView for Activity {
    type V = ActivityView;

    open spec fn deep_view(&self) -> ActivityView {
        self@
    }
}

pub struct StreamContextView {
    pub voice_members: Seq<Seq<char>>,
    pub avatars: Seq<AvatarView>,
    pub channel_name: Seq<char>,
    pub participants: nat,
    pub activities: Seq<ActivityView>,
}

impl View for StreamContext {
    type V = StreamContextView;

    open spec fn view(&self) -> StreamContextView {
        StreamContextView {
            voice_members: self.voice_members.deep_view(),
            avatars: self.avatars.deep_view(),
            channel_name: self.channel_name@,
            participants: self.participants as nat,
            activities: self.activities.deep_view(),
        }
    }
}

impl DeepView for StreamContext {
    type V = StreamContextView;

    open spec fn deep_view(&self) -> StreamContextView {
        self@
    }
}

/// A copy of an optional image.
pub fn clone_image(image: &Option<Attachment>) -> (r: Option<Attachment>)
    ensures
        r.deep_view() == image.deep_view(),
{
    match image {
        Some(a) => Some(a.clone()),
        None => None,
    }
}

/// What may be shown of a JSON string, unless it is blank.
pub open spec fn label(value: JsonView, max: nat) -> Option<Seq<char>> {
    match text_in(value) {
        Some(text) => if blank(cleaned(text, max)) {
            None
        } else {
            Some(cleaned(text, max))
        },
        None => None,
    }
}

fn text(value: &Json, max: usize) -> (r: Option<String>)
    ensures
        r.deep_view() == label(value@, max as nat),
{
    match value.as_text() {
        Some(text) => {
            let shown = clean(text, max);
            if is_blank(shown.as_str()) {
                None
            } else {
                Some(shown)
            }
        },
        None => None,
    }
}

/// A text that repeats nothing said before.
pub open spec fn unless(text: Option<Seq<char>>, repeats: bool) -> Option<Seq<char>> {
    if repeats {
        None
    } else {
        text
    }
}

/// Whether two optional texts are the same.
pub fn same_texts(a: &Option<String>, b: &Option<String>) -> (r: bool)
    ensures
        r == (a.deep_view() == b.deep_view()),
{
    match (a, b) {
        (Some(x), Some(y)) => same(x.as_str(), y.as_str()),
        (None, None) => true,
        _ => false,
    }
}

/// How many of how many places of a party are taken, where that makes sense.
pub open spec fn party_in(value: JsonView) -> Option<(u64, u64)> {
    match list_in(value) {
        Some(sizes) => if sizes.len() >= 2 && unsigned_in(sizes[0]) is Some && unsigned_in(
            sizes[1],
        ) is Some && 0 < unsigned_in(sizes[1])->0 <= 100_000 && unsigned_in(sizes[0])->0
            <= unsigned_in(sizes[1])->0 {
            Some((unsigned_in(sizes[0])->0, unsigned_in(sizes[1])->0))
        } else {
            None
        },
        None => None,
    }
}

fn party_of(value: &Json) -> (r: Option<(u64, u64)>)
    ensures
        r == party_in(value@),
{
    let sizes = match value.as_list() {
        Some(list) => list,
        None => return None,
    };
    if sizes.len() < 2 {
        return None;
    }
    match (sizes[0].as_unsigned(), sizes[1].as_unsigned()) {
        (Some(current), Some(max)) => if 0 < max && max <= 100_000 && current <= max {
            Some((current, max))
        } else {
            None
        },
        _ => None,
    }
}

/// The image of an application's asset.
pub open spec fn asset(app: Seq<char>, asset: Seq<char>) -> AttachmentView {
    AttachmentView {
        source: ImageSource::ActivityAsset,
        id: "asset:"@ + app + ":"@ + asset,
        url: "https://cdn.discordapp.com/app-assets/"@ + app + "/"@ + asset + ".png?size=512"@,
        content_type: Some("image/png"@),
        size: 0,
    }
}

/// The image of an activity, where both its IDs are IDs.
pub open spec fn artwork_in(raw: JsonView) -> Option<AttachmentView> {
    let app = text_in(member(raw, "application_id"@));
    let image = text_in(member(member(raw, "assets"@), "large_image"@));
    if app is Some && image is Some && is_snowflake(app->0) && is_snowflake(image->0) {
        Some(asset(app->0, image->0))
    } else {
        None
    }
}

/// The URL of an application's image.
pub open spec fn artwork_address(text: Seq<char>) -> bool {
    exists|app: Seq<char>, image: Seq<char>|
        is_snowflake(app) && is_snowflake(image) && text == (#[trigger] asset(app, image)).url
}

/// The URL of an activity's image is one that an image may be fetched from: what checks such
/// URLs accepts it.
pub proof fn law_artwork_is_accepted(raw: JsonView)
    ensures
        match artwork_in(raw) {
            Some(image) => image.source is ActivityAsset && artwork_address(image.url),
            None => true,
        },
{
}

fn artwork_of(raw: &Json) -> (r: Option<Attachment>)
    ensures
        r.deep_view() == artwork_in(raw@),
{
    match (raw.get("application_id").as_text(), raw.get("assets").get("large_image").as_text()) {
        (Some(app), Some(image)) => if snowflake(app) && snowflake(image) {
            let mut id = "asset:".to_owned();
            id.append(app);
            id.append(":");
            id.append(image);
            let mut url = "https://cdn.discordapp.com/app-assets/".to_owned();
            url.append(app);
            url.append("/");
            url.append(image);
            url.append(".png?size=512");
            Some(
                Attachment {
                    source: ImageSource::ActivityAsset,
                    id,
                    url,
                    content_type: Some("image/png".to_owned()),
                    size: 0,
                },
            )
        } else {
            None
        },
        _ => None,
    }
}

/// Playing, streaming elsewhere, competing: what else a person does is nobody's business.
pub open spec fn announced_kind(kind: u64) -> bool {
    kind == 0 || kind == 1 || kind == 5
}

/// What may be announced of an activity.
pub open spec fn activity_in(raw: JsonView) -> Option<ActivityView> {
    let kind = unsigned_in(member(raw, "type"@));
    let name = label(member(raw, "name"@), 70);
    let details = label(member(raw, "details"@), 90);
    let told = label(member(raw, "state"@), 80);
    let state = unless(told, told == details);
    let caption = label(member(member(raw, "assets"@), "large_text"@), 70);
    if kind is Some && announced_kind(kind->0) && name is Some {
        Some(
            ActivityView {
                name: name->0,
                kind: kind->0,
                details,
                state,
                image_text: unless(
                    caption,
                    caption == name || caption == details || caption == state,
                ),
                party: party_in(member(member(raw, "party"@), "size"@)),
                artwork: artwork_in(raw),
            },
        )
    } else {
        None
    }
}

impl Activity {
    pub fn parse(raw: &Json) -> (r: Option<Activity>)
        ensures
            r.deep_view() == activity_in(raw@),
    {
        let kind = match raw.get("type").as_unsigned() {
            Some(kind) => kind,
            None => return None,
        };
        if kind != 0 && kind != 1 && kind != 5 {
            return None;
        }
        let name = text(raw.get("name"), 70);
        let details = text(raw.get("details"), 90);
        let told = text(raw.get("state"), 80);
        let state = if same_texts(&told, &details) {
            None
        } else {
            told
        };
        let caption = text(raw.get("assets").get("large_text"), 70);
        let image_text = if same_texts(&caption, &name) || same_texts(&caption, &details)
            || same_texts(&caption, &state) {
            None
        } else {
            caption
        };
        match name {
            Some(name) => Some(
                Activity {
                    name,
                    kind,
                    details,
                    state,
                    image_text,
                    party: party_of(raw.get("party").get("size")),
                    artwork: artwork_of(raw),
                },
            ),
            None => None,
        }
    }
}

/// Whether an activity belongs before another: by kind, then by name.
pub open spec fn sooner(a: ActivityView, b: ActivityView) -> bool {
    a.kind < b.kind || (a.kind == b.kind && precedes(a.name, b.name))
}

fn is_sooner(a: &Activity, b: &Activity) -> (r: bool)
    ensures
        r == sooner(a@, b@),
{
    a.kind < b.kind || (a.kind == b.kind && less(a.name.as_str(), b.name.as_str()))
}

/// An activity put behind all that it does not belong before.
pub open spec fn put(list: Seq<ActivityView>, a: ActivityView) -> Seq<ActivityView>
    decreases list.len(),
{
    if list.len() > 0 && sooner(a, list.last()) {
        put(list.drop_last(), a).push(list.last())
    } else {
        list.push(a)
    }
}

/// The activities by kind and name; those alike keep their order.
pub open spec fn arranged(list: Seq<ActivityView>) -> Seq<ActivityView>
    decreases list.len(),
{
    if list.len() == 0 {
        Seq::empty()
    } else {
        put(arranged(list.drop_last()), list.last())
    }
}

/// The activities among raw ones, in order.
pub open spec fn activities_in(raw: Seq<JsonView>) -> Seq<ActivityView>
    decreases raw.len(),
{
    if raw.len() == 0 {
        Seq::empty()
    } else {
        let front = activities_in(raw.drop_last());
        match activity_in(raw.last()) {
            Some(a) => front.push(a),
            None => front,
        }
    }
}

/// Puts an activity into an arranged list.
fn put_in(list: &mut Vec<Activity>, a: Activity)
    ensures
        final(list).deep_view() == put(old(list).deep_view(), a@),
{
    let ghost before = list.deep_view();
    let mut at: usize = list.len();
    assert(before.take(before.len() as int) =~= before);
    assert(before.skip(before.len() as int) =~= Seq::<ActivityView>::empty());
    assert(put(before, a@) + Seq::<ActivityView>::empty() =~= put(before, a@));
    while at > 0 && is_sooner(&a, &list[at - 1])
        invariant
            at <= list.len(),
            before == list.deep_view(),
            put(before, a@) == put(before.take(at as int), a@) + before.skip(at as int),
        decreases at,
    {
        proof {
            let head = before.take(at as int);
            assert(head.drop_last() =~= before.take(at - 1));
            assert(put(head.drop_last(), a@).push(head.last()) + before.skip(at as int) =~= put(
                before.take(at - 1),
                a@,
            ) + before.skip(at - 1));
        }
        at = at - 1;
    }
    list.insert(at, a);
    proof {
        assert(list.deep_view() =~= before.take(at as int).push(a@) + before.skip(at as int));
    }
}

/// The first item that passes a test.
pub open spec fn first_where(
    items: Seq<JsonView>,
    test: spec_fn(JsonView) -> bool,
) -> Option<JsonView>
    decreases items.len(),
{
    if items.len() == 0 {
        None
    } else if test(items[0]) {
        Some(items[0])
    } else {
        first_where(items.drop_first(), test)
    }
}

/// A test on the ID that an item itself bears.
pub open spec fn has_id(id: Seq<char>) -> spec_fn(JsonView) -> bool {
    |item: JsonView| member(item, "id"@) == JsonView::Text(id)
}

/// A test on the ID of the user that an item speaks of.
pub open spec fn of_user(id: Seq<char>) -> spec_fn(JsonView) -> bool {
    |item: JsonView| member(member(item, "user"@), "id"@) == JsonView::Text(id)
}

/// The first item with this ID.
pub fn find_id<'a>(items: &'a Vec<Json>, id: &str) -> (r: Option<&'a Json>)
    ensures
        match r {
            Some(item) => first_where(views(items@), has_id(id@)) == Some(item@),
            None => first_where(views(items@), has_id(id@)) is None,
        },
{
    let ghost shown = views(items@);
    let mut i: usize = 0;
    assert(shown.skip(0) =~= shown);
    while i < items.len()
        invariant
            i <= items.len(),
            shown == views(items@),
            first_where(shown, has_id(id@)) == first_where(shown.skip(i as int), has_id(id@)),
        decreases items.len() - i,
    {
        if items[i].get("id").is_text(id) {
            return Some(&items[i]);
        }
        assert(shown.skip(i as int).drop_first() =~= shown.skip(i + 1));
        i = i + 1;
    }
    None
}

/// The first item that speaks of this user.
pub fn find_user<'a>(items: &'a Vec<Json>, id: &str) -> (r: Option<&'a Json>)
    ensures
        match r {
            Some(item) => first_where(views(items@), of_user(id@)) == Some(item@),
            None => first_where(views(items@), of_user(id@)) is None,
        },
{
    let ghost shown = views(items@);
    let mut i: usize = 0;
    assert(shown.skip(0) =~= shown);
    while i < items.len()
        invariant
            i <= items.len(),
            shown == views(items@),
            first_where(shown, of_user(id@)) == first_where(shown.skip(i as int), of_user(id@)),
        decreases items.len() - i,
    {
        if items[i].get("user").get("id").is_text(id) {
            return Some(&items[i]);
        }
        assert(shown.skip(i as int).drop_first() =~= shown.skip(i + 1));
        i = i + 1;
    }
    None
}

/// The items of a member that is a list; none where it is no list.
pub open spec fn items_in(data: JsonView, name: Seq<char>) -> Seq<JsonView> {
    match list_in(member(data, name)) {
        Some(items) => items,
        None => Seq::empty(),
    }
}

/// What a voice channel is called.
pub open spec fn channel_name(data: JsonView, channel: Seq<char>) -> Seq<char> {
    match first_where(items_in(data, "channels"@), has_id(channel)) {
        Some(found) => match text_in(member(found, "name"@)) {
            Some(name) => cleaned(name, 40),
            None => "ボイスチャンネル"@,
        },
        None => "ボイスチャンネル"@,
    }
}

pub fn name_channel(data: &Json, channel: &str) -> (r: String)
    ensures
        r@ == channel_name(data@, channel@),
{
    if let Some(channels) = data.get("channels").as_list() {
        if let Some(found) = find_id(channels, channel) {
            if let Some(name) = found.get("name").as_text() {
                return clean(name, 40);
            }
        }
    }
    "ボイスチャンネル".to_owned()
}

/// Whether the members include a bot with this ID.
pub open spec fn is_bot(members: Seq<JsonView>, id: JsonView) -> bool {
    exists|i: int|
        0 <= i < members.len() && equal_values(
            member(member(#[trigger] members[i], "user"@), "id"@),
            id,
        ) && member(member(members[i], "user"@), "bot"@) == JsonView::Bool(true)
}

/// A test for the voice states of people, not bots, in a channel.
pub open spec fn person_in(members: Seq<JsonView>, channel: Seq<char>) -> spec_fn(JsonView) -> bool {
    |state: JsonView|
        member(state, "channel_id"@) == JsonView::Text(channel) && !is_bot(
            members,
            member(state, "user_id"@),
        )
}

/// Whether one of the members is a bot with this ID.
pub fn bot_among(members: &Json, id: &Json) -> (r: bool)
    ensures
        r == is_bot(
            match list_in(members@) {
                Some(items) => items,
                None => Seq::empty(),
            },
            id@,
        ),
{
    let items = match members.as_list() {
        Some(items) => items,
        None => return false,
    };
    let ghost shown = views(items@);
    for i in 0..items.len()
        invariant
            shown == views(items@),
            list_in(members@) == Some(shown),
            forall|j: int|
                0 <= j < i ==> !(equal_values(
                    member(member(#[trigger] shown[j], "user"@), "id"@),
                    id@,
                )
                    && member(member(shown[j], "user"@), "bot"@) == JsonView::Bool(true)),
    {
        let user = items[i].get("user");
        if user.get("id").equals(id) && user.get("bot").is_true() {
            assert(equal_values(member(member(shown[i as int], "user"@), "id"@), id@));
            return true;
        }
    }
    false
}

/// How many people, not counting bots, are in a voice channel.
pub open spec fn head_count(data: JsonView, channel: Seq<char>) -> nat {
    items_in(data, "voice_states"@).filter(person_in(items_in(data, "members"@), channel)).len()
}

fn count_heads(data: &Json, channel: &str) -> (r: usize)
    ensures
        r == head_count(data@, channel@),
{
    let states = match data.get("voice_states").as_list() {
        Some(states) => states,
        None => {
            reveal(Seq::filter);
            return 0;
        },
    };
    let ghost shown = views(states@);
    let ghost test = person_in(items_in(data@, "members"@), channel@);
    let mut count: usize = 0;
    assert(shown.take(0).filter(test).len() == 0) by {
        reveal(Seq::filter);
    }
    for i in 0..states.len()
        invariant
            shown == views(states@),
            test == person_in(items_in(data@, "members"@), channel@),
            count == shown.take(i as int).filter(test).len(),
            count <= i,
    {
        proof {
            crate::text::lemma_filter_step(shown, test, i as int);
        }
        let state = &states[i];
        if state.get("channel_id").is_text(channel) && !bot_among(
            data.get("members"),
            state.get("user_id"),
        ) {
            count = count + 1;
        }
    }
    assert(shown.take(shown.len() as int) =~= shown);
    count
}

/// What a person does, as far as it is announced: at most two activities.
pub open spec fn activities_of(data: JsonView, user: Seq<char>) -> Seq<ActivityView> {
    let raw = match first_where(items_in(data, "presences"@), of_user(user)) {
        Some(presence) => items_in(presence, "activities"@),
        None => Seq::empty(),
    };
    let all = arranged(activities_in(raw));
    if all.len() <= 2 {
        all
    } else {
        all.take(2)
    }
}

fn find_activities(data: &Json, user: &str) -> (r: Vec<Activity>)
    ensures
        r.deep_view() == activities_of(data@, user@),
{
    let mut list: Vec<Activity> = Vec::new();
    assert(list.deep_view() =~= Seq::<ActivityView>::empty());
    if let Some(presences) = data.get("presences").as_list() {
        if let Some(presence) = find_user(presences, user) {
            if let Some(raw) = presence.get("activities").as_list() {
                let ghost shown = views(raw@);
                assert(shown.take(0) =~= Seq::<JsonView>::empty());
                for i in 0..raw.len()
                    invariant
                        shown == views(raw@),
                        list.deep_view() == arranged(activities_in(shown.take(i as int))),
                {
                    let ghost known = activities_in(shown.take(i as int));
                    proof {
                        assert(shown.take(i + 1).drop_last() =~= shown.take(i as int));
                        assert(shown.take(i + 1).last() == raw@[i as int]@);
                    }
                    if let Some(a) = Activity::parse(&raw[i]) {
                        proof {
                            assert(known.push(a@).drop_last() =~= known);
                        }
                        put_in(&mut list, a);
                    }
                }
                assert(shown.take(shown.len() as int) =~= shown);
            }
        }
    }
    let ghost all = list.deep_view();
    if list.len() > 2 {
        list.truncate(2);
        assert(list.deep_view() =~= all.take(2));
    }
    list
}

/// What is known of a person's stream in a channel.
pub open spec fn context_of(data: JsonView, user: Seq<char>, channel: Seq<char>) -> StreamContextView {
    StreamContextView {
        voice_members: Seq::empty(),
        avatars: Seq::empty(),
        channel_name: channel_name(data, channel),
        participants: head_count(data, channel),
        activities: activities_of(data, user),
    }
}

impl StreamContext {
    pub fn from_guild(data: &Json, user: &str, channel: &str) -> (r: StreamContext)
        ensures
            r@ == context_of(data@, user@, channel@),
    {
        let r = StreamContext {
            voice_members: Vec::new(),
            avatars: Vec::new(),
            channel_name: name_channel(data, channel),
            participants: count_heads(data, channel),
            activities: find_activities(data, user),
        };
        assert(r@.voice_members =~= Seq::<Seq<char>>::empty());
        assert(r@.avatars =~= Seq::<AvatarView>::empty());
        r
    }
}

/// A text or null.
pub open spec fn optional_json(text: Option<Seq<char>>) -> JsonView {
    match text {
        Some(t) => JsonView::Text(t),
        None => JsonView::Null,
    }
}

/// An image as JSON.
pub open spec fn image_json(image: AttachmentView) -> JsonView {
    JsonView::Object(
        seq![
            (
                "source"@,
                JsonView::Text(
                    match image.source {
                        ImageSource::DiscordAttachment => "discord_attachment"@,
                        ImageSource::ActivityAsset => "activity_asset"@,
                    },
                ),
            ),
            ("id"@, JsonView::Text(image.id)),
            ("url"@, JsonView::Text(image.url)),
            ("content_type"@, optional_json(image.content_type)),
            ("size"@, JsonView::Unsigned(image.size)),
        ],
    )
}

fn json_of_image(image: &Attachment) -> (r: Json)
    ensures
        r@ == image_json(image@),
{
    let source = match image.source {
        ImageSource::DiscordAttachment => Json::text("discord_attachment"),
        ImageSource::ActivityAsset => Json::text("activity_asset"),
    };
    let mut members: Vec<Member> = Vec::new();
    members.push(named("source", source));
    members.push(named("id", Json::text(image.id.as_str())));
    members.push(named("url", Json::text(image.url.as_str())));
    members.push(named("content_type", Json::optional_text(&image.content_type)));
    members.push(named("size", Json::Unsigned(image.size)));
    assert(member_views(members@) =~= image_json(image@)->Object_0);
    Json::object(members)
}

/// An activity as JSON.
pub open spec fn activity_json(a: ActivityView) -> JsonView {
    JsonView::Object(
        seq![
            ("name"@, JsonView::Text(a.name)),
            ("kind"@, JsonView::Unsigned(a.kind)),
            ("details"@, optional_json(a.details)),
            ("state"@, optional_json(a.state)),
            ("image_text"@, optional_json(a.image_text)),
            (
                "party"@,
                match a.party {
                    Some((current, max)) => JsonView::List(
                        seq![JsonView::Unsigned(current), JsonView::Unsigned(max)],
                    ),
                    None => JsonView::Null,
                },
            ),
            (
                "artwork"@,
                match a.artwork {
                    Some(image) => image_json(image),
                    None => JsonView::Null,
                },
            ),
        ],
    )
}

fn json_of_activity(a: &Activity) -> (r: Json)
    ensures
        r@ == activity_json(a@),
{
    let party = match a.party {
        Some((current, max)) => {
            let mut sizes: Vec<Json> = Vec::new();
            sizes.push(Json::Unsigned(current));
            sizes.push(Json::Unsigned(max));
            assert(views(sizes@) =~= seq![JsonView::Unsigned(current), JsonView::Unsigned(max)]);
            Json::list(sizes)
        },
        None => Json::Null,
    };
    let artwork = match &a.artwork {
        Some(image) => json_of_image(image),
        None => Json::Null,
    };
    let mut members: Vec<Member> = Vec::new();
    members.push(named("name", Json::text(a.name.as_str())));
    members.push(named("kind", Json::Unsigned(a.kind)));
    members.push(named("details", Json::optional_text(&a.details)));
    members.push(named("state", Json::optional_text(&a.state)));
    members.push(named("image_text", Json::optional_text(&a.image_text)));
    members.push(named("party", party));
    members.push(named("artwork", artwork));
    assert(member_views(members@) =~= activity_json(a@)->Object_0);
    Json::object(members)
}

/// What is announced of a call, as JSON. Times, viewers and secrets have no place in it.
pub open spec fn context_json(c: StreamContextView, channel: Seq<char>) -> JsonView {
    let people: Seq<(Seq<char>, JsonView)> = if c.voice_members.len() > 0 {
        seq![
            (
                "voice_members"@,
                JsonView::List(c.voice_members.map_values(|name: Seq<char>| JsonView::Text(name))),
            ),
        ]
    } else {
        Seq::empty()
    };
    JsonView::List(
        seq![
            JsonView::Text(channel),
            JsonView::Object(
                people + seq![
                    ("channel_name"@, JsonView::Text(c.channel_name)),
                    ("participants"@, JsonView::Unsigned(c.participants as u64)),
                    (
                        "activities"@,
                        JsonView::List(c.activities.map_values(|a: ActivityView| activity_json(a))),
                    ),
                ],
            ),
        ],
    )
}

/// The identity of what is announced of a call.
pub open spec fn fingerprint_of(c: StreamContextView, channel: Seq<char>) -> Seq<char> {
    lower_hex(sha256_of(encode_utf8(json_text(context_json(c, channel)))))
}

/// The first image that an activity brings.
pub open spec fn first_artwork(list: Seq<ActivityView>) -> Option<AttachmentView>
    decreases list.len(),
{
    if list.len() == 0 {
        None
    } else if list[0].artwork is Some {
        list[0].artwork
    } else {
        first_artwork(list.drop_first())
    }
}

/// What a post says first.
pub open spec fn heading(c: StreamContextView, name: Seq<char>, start: bool) -> Seq<char> {
    if c.voice_members.len() > 0 {
        if start {
            "💬 Discordの通話参加を検知しました"@
        } else {
            "💬 Discordの通話参加状況を更新しました"@
        }
    } else if start {
        "🔴 "@ + cleaned(name, 60) + " さんのDiscord配信を検知しました"@
    } else {
        "🎮 "@ + cleaned(name, 60) + " さんのDiscord配信情報を更新しました"@
    }
}

/// How a kind of activity is called.
pub open spec fn kind_label(kind: u64) -> Seq<char> {
    if kind == 0 {
        "プレイ中"@
    } else if kind == 1 {
        "外部配信表示"@
    } else if kind == 5 {
        "競技中"@
    } else {
        "アプリ"@
    }
}

/// A line for a text, where there is one.
pub open spec fn optional_line(start: Seq<char>, text: Option<Seq<char>>) -> Seq<Seq<char>> {
    match text {
        Some(t) => seq![start + t],
        None => Seq::empty(),
    }
}

/// What a post says of an activity.
pub open spec fn activity_lines(a: ActivityView) -> Seq<Seq<char>> {
    seq![kind_label(a.kind) + "："@ + a.name] + optional_line("内容："@, a.details)
        + optional_line("状態："@, a.state) + optional_line("ゲーム情報："@, a.image_text)
        + optional_line(
        "ゲーム内パーティー："@,
        match a.party {
            Some((current, max)) => Some(decimal(current as nat) + "/"@ + decimal(max as nat)),
            None => None,
        },
    )
}

/// What a post says of all the activities.
pub open spec fn all_activity_lines(list: Seq<ActivityView>) -> Seq<Seq<char>>
    decreases list.len(),
{
    if list.len() == 0 {
        Seq::empty()
    } else {
        all_activity_lines(list.drop_last()) + activity_lines(list.last())
    }
}

/// What a post says below its heading.
pub open spec fn body_lines(c: StreamContextView) -> Seq<Seq<char>> {
    seq!["場所："@ + c.channel_name + "／通話参加 "@ + decimal(c.participants) + "人"@] + (
    if c.voice_members.len() > 0 {
        seq!["現在、配信はありません"@, "参加者："@ + join(c.voice_members, "、"@)]
    } else if c.activities.len() == 0 {
        seq!["共有アプリの情報はDiscordから取得できませんでした"@]
    } else {
        seq!["Discordのアクティビティ（共有画面とは一致しない場合があります）"@] + all_activity_lines(
            c.activities,
        )
    })
}

/// A text within a bound; what is cut off gives way to an ellipsis.
pub open spec fn shortened(text: Seq<char>, max: nat) -> Seq<char> {
    if text.len() <= max {
        text
    } else if max == 0 {
        "…"@
    } else {
        text.take(max - 1) + "…"@
    }
}

/// The longest post, in characters.
pub const POST_CHARS: usize = 480;

/// How much room a heading leaves.
pub open spec fn room(heading: Seq<char>) -> nat {
    if heading.len() + 1 <= POST_CHARS {
        (POST_CHARS - (heading.len() + 1)) as nat
    } else {
        0
    }
}

/// A post on a call.
pub open spec fn post_text(c: StreamContextView, name: Seq<char>, start: bool) -> Seq<char> {
    let top = heading(c, name, start);
    top + "\n"@ + shortened(join(body_lines(c), "\n"@), room(top))
}

/// Adds a line for a text, where there is one.
fn push_line(lines: &mut Vec<String>, start: &str, text: &Option<String>)
    ensures
        final(lines).deep_view() == old(lines).deep_view() + optional_line(start@, text.deep_view()),
{
    let ghost before = lines.deep_view();
    if let Some(t) = text {
        let mut line = start.to_owned();
        line.append(t.as_str());
        lines.push(line);
        assert(lines.deep_view() =~= before + seq![start@ + t@]);
    } else {
        assert(before + Seq::<Seq<char>>::empty() =~= before);
    }
}

fn push_activity(lines: &mut Vec<String>, a: &Activity)
    ensures
        final(lines).deep_view() == old(lines).deep_view() + activity_lines(a@),
{
    let ghost before = lines.deep_view();
    let mut line = (match a.kind {
        0 => "プレイ中",
        1 => "外部配信表示",
        5 => "競技中",
        _ => "アプリ",
    }).to_owned();
    line.append("：");
    line.append(a.name.as_str());
    assert(line@ =~= kind_label(a.kind) + "："@ + a.name@);
    lines.push(line);
    let ghost titled = lines.deep_view();
    assert(titled =~= before + seq![line@]);
    push_line(lines, "内容：", &a.details);
    push_line(lines, "状態：", &a.state);
    push_line(lines, "ゲーム情報：", &a.image_text);
    let party = match a.party {
        Some((current, max)) => {
            let mut text = decimal_text(current);
            text.append("/");
            text.append(decimal_text(max).as_str());
            Some(text)
        },
        None => None,
    };
    push_line(lines, "ゲーム内パーティー：", &party);
    assert(lines.deep_view() =~= before + activity_lines(a@));
}

fn shorten(text: &str, max: usize) -> (r: String)
    ensures
        r@ == shortened(text@, max as nat),
{
    let n = text.unicode_len();
    if n <= max {
        return text.to_owned();
    }
    let mut out = if max == 0 {
        String::new()
    } else {
        prefix(text, max - 1)
    };
    out.append("…");
    assert(max == 0 ==> out@ =~= "…"@);
    out
}

impl StreamContext {
    /// The identity of what is announced: it changes when, and in effect only when, the
    /// announced facts change.
    pub fn fingerprint(&self, channel_id: &str) -> (r: String)
        ensures
            r@ == fingerprint_of(self@, channel_id@),
            is_digest(r@),
    {
        let text = self.fingerprint_text(channel_id);
        let digest = sha256(text.as_str().as_bytes());
        proof {
            lemma_digest(digest@);
        }
        hex_text(&digest)
    }

    /// The announced facts as JSON text.
    pub fn fingerprint_text(&self, channel_id: &str) -> (r: String)
        ensures
            r@ == json_text(context_json(self@, channel_id@)),
    {
        let ghost c = self@;
        let mut members: Vec<Member> = Vec::new();
        if self.voice_members.len() > 0 {
            let mut people: Vec<Json> = Vec::new();
            for i in 0..self.voice_members.len()
                invariant
                    c == self@,
                    views(people@) == c.voice_members.take(i as int).map_values(
                        |name: Seq<char>| JsonView::Text(name),
                    ),
            {
                let ghost held = views(people@);
                people.push(Json::text(self.voice_members[i].as_str()));
                proof {
                    assert(views(people@) =~= held.push(JsonView::Text(c.voice_members[i as int])));
                    assert(c.voice_members.take(i + 1).map_values(
                        |name: Seq<char>| JsonView::Text(name),
                    ) =~= held.push(JsonView::Text(c.voice_members[i as int])));
                }
            }
            assert(c.voice_members.take(c.voice_members.len() as int) =~= c.voice_members);
            members.push(named("voice_members", Json::list(people)));
        }
        let mut list: Vec<Json> = Vec::new();
        for i in 0..self.activities.len()
            invariant
                c == self@,
                views(list@) == c.activities.take(i as int).map_values(
                    |a: ActivityView| activity_json(a),
                ),
        {
            let ghost held = views(list@);
            list.push(json_of_activity(&self.activities[i]));
            proof {
                assert(views(list@) =~= held.push(activity_json(c.activities[i as int])));
                assert(c.activities.take(i + 1).map_values(|a: ActivityView| activity_json(a))
                    =~= held.push(activity_json(c.activities[i as int])));
            }
        }
        assert(c.activities.take(c.activities.len() as int) =~= c.activities);
        members.push(named("channel_name", Json::text(self.channel_name.as_str())));
        members.push(named("participants", Json::Unsigned(self.participants as u64)));
        members.push(named("activities", Json::list(list)));
        let ghost wanted = context_json(c, channel_id@);
        assert(member_views(members@) =~= wanted->List_0[1]->Object_0);
        let mut pair: Vec<Json> = Vec::new();
        pair.push(Json::text(channel_id));
        pair.push(Json::object(members));
        assert(views(pair@) =~= wanted->List_0);
        Json::list(pair).to_text()
    }

    pub fn artwork(&self) -> (r: Option<Attachment>)
        ensures
            r.deep_view() == first_artwork(self@.activities),
    {
        let ghost shown = self@.activities;
        let mut i: usize = 0;
        assert(shown.skip(0) =~= shown);
        while i < self.activities.len()
            invariant
                i <= self.activities.len(),
                shown == self@.activities,
                first_artwork(shown) == first_artwork(shown.skip(i as int)),
            decreases self.activities.len() - i,
        {
            if let Some(image) = &self.activities[i].artwork {
                return Some(image.clone());
            }
            assert(shown.skip(i as int).drop_first() =~= shown.skip(i + 1));
            i = i + 1;
        }
        None
    }

    pub fn render(&self, name: &str, start: bool) -> (r: String)
        ensures
            r@ == post_text(self@, name@, start),
            r@.len() <= POST_CHARS,
    {
        let ghost c = self@;
        let mut top = String::new();
        if self.voice_members.len() > 0 {
            if start {
                top.append("💬 Discordの通話参加を検知しました");
            } else {
                top.append("💬 Discordの通話参加状況を更新しました");
            }
        } else if start {
            top.append("🔴 ");
            top.append(clean(name, 60).as_str());
            top.append(" さんのDiscord配信を検知しました");
        } else {
            top.append("🎮 ");
            top.append(clean(name, 60).as_str());
            top.append(" さんのDiscord配信情報を更新しました");
        }
        assert(top@ =~= heading(c, name@, start));
        let mut lines: Vec<String> = Vec::new();
        let mut place = "場所：".to_owned();
        place.append(self.channel_name.as_str());
        place.append("／通話参加 ");
        place.append(decimal_text(self.participants as u64).as_str());
        place.append("人");
        lines.push(place);
        let ghost placed = lines.deep_view();
        assert(placed =~= seq![place@]);
        if self.voice_members.len() > 0 {
            lines.push("現在、配信はありません".to_owned());
            let mut people = "参加者：".to_owned();
            people.append(join_texts(&self.voice_members, "、").as_str());
            lines.push(people);
            assert(lines.deep_view() =~= body_lines(c));
        } else if self.activities.len() == 0 {
            lines.push("共有アプリの情報はDiscordから取得できませんでした".to_owned());
            assert(lines.deep_view() =~= body_lines(c));
        } else {
            lines.push(
                "Discordのアクティビティ（共有画面とは一致しない場合があります）".to_owned(),
            );
            let ghost noted = lines.deep_view();
            assert(noted + all_activity_lines(c.activities.take(0)) =~= noted);
            for i in 0..self.activities.len()
                invariant
                    c == self@,
                    lines.deep_view() == noted + all_activity_lines(c.activities.take(i as int)),
            {
                push_activity(&mut lines, &self.activities[i]);
                proof {
                    assert(c.activities.take(i + 1).drop_last() =~= c.activities.take(i as int));
                    assert(noted + (all_activity_lines(c.activities.take(i as int))
                        + activity_lines(c.activities[i as int])) =~= lines.deep_view());
                }
            }
            assert(c.activities.take(c.activities.len() as int) =~= c.activities);
            assert(lines.deep_view() =~= body_lines(c));
        }
        let used = top.as_str().unicode_len();
        let budget: usize = if used < POST_CHARS {
            POST_CHARS - used - 1
        } else {
            0
        };
        let body = shorten(join_texts(&lines, "\n").as_str(), budget);
        proof {
            lemma_heading_short(c, name@, start);
            reveal_strlit("…");
            reveal_strlit("\n");
        }
        top.append("\n");
        top.append(body.as_str());
        top
    }
}

/// A heading leaves room for the rest of a post.
pub proof fn lemma_heading_short(c: StreamContextView, name: Seq<char>, start: bool)
    ensures
        heading(c, name, start).len() <= 100,
{
    crate::discord::law_cleaned_is_safe(name, 60);
    reveal_strlit("💬 Discordの通話参加を検知しました");
    reveal_strlit("💬 Discordの通話参加状況を更新しました");
    reveal_strlit("🔴 ");
    reveal_strlit("🎮 ");
    reveal_strlit(" さんのDiscord配信を検知しました");
    reveal_strlit(" さんのDiscord配信情報を更新しました");
}

impl Clone for Activity {
    fn clone(&self) -> (r: Self)
        ensures
            r@ == self@,
    {
        Activity {
            name: self.name.clone(),
            kind: self.kind,
            details: clone_text(&self.details),
            state: clone_text(&self.state),
            image_text: clone_text(&self.image_text),
            party: self.party,
            artwork: clone_image(&self.artwork),
        }
    }
}

impl Clone for StreamContext {
    fn clone(&self) -> (r: Self)
        ensures
            r@ == self@,
    {
        let ghost c = self@;
        let mut activities: Vec<Activity> = Vec::new();
        for i in 0..self.activities.len()
            invariant
                c == self@,
                activities.deep_view() == c.activities.take(i as int),
        {
            let ghost held = activities.deep_view();
            activities.push(self.activities[i].clone());
            proof {
                assert(activities.deep_view() =~= held.push(c.activities[i as int]));
                assert(c.activities.take(i + 1) =~= held.push(c.activities[i as int]));
            }
        }
        assert(c.activities.take(c.activities.len() as int) =~= c.activities);
        StreamContext {
            voice_members: clone_texts(&self.voice_members),
            avatars: clone_avatars(&self.avatars),
            channel_name: self.channel_name.clone(),
            participants: self.participants,
            activities,
        }
    }
}

/// Whether two activities are alike in kind and name.
pub open spec fn alike(a: ActivityView, b: ActivityView) -> bool {
    a.kind == b.kind && a.name == b.name
}

/// No two activities alike.
pub open spec fn all_distinct(list: Seq<ActivityView>) -> bool {
    forall|i: int, j: int|
        0 <= i < j < list.len() ==> !alike(#[trigger] list[i], #[trigger] list[j])
}

/// Each activity before all those behind it.
pub open spec fn in_order(list: Seq<ActivityView>) -> bool {
    forall|i: int, j: int|
        0 <= i < j < list.len() ==> sooner(#[trigger] list[i], #[trigger] list[j])
}

/// Of two activities that are not alike, exactly one belongs before the other.
pub proof fn lemma_sooner_total(a: ActivityView, b: ActivityView)
    ensures
        !sooner(a, a),
        sooner(a, b) ==> !sooner(b, a),
        !alike(a, b) ==> sooner(a, b) || sooner(b, a),
{
    lemma_precedes_total(a.name, b.name);
    lemma_precedes_total(a.name, a.name);
}

pub proof fn lemma_sooner_transitive(a: ActivityView, b: ActivityView, c: ActivityView)
    requires
        sooner(a, b),
        sooner(b, c),
    ensures
        sooner(a, c),
{
    if a.kind == b.kind && b.kind == c.kind {
        lemma_precedes_transitive(a.name, b.name, c.name);
    }
}

/// Putting an activity in adds it, and keeps the order where none is alike.
proof fn lemma_put(list: Seq<ActivityView>, a: ActivityView)
    ensures
        put(list, a).len() == list.len() + 1,
        forall|x: ActivityView|
            #[trigger] put(list, a).contains(x) <==> (x == a || list.contains(x)),
        in_order(list) && (forall|i: int| 0 <= i < list.len() ==> !alike(#[trigger] list[i], a))
            ==> in_order(put(list, a)),
    decreases list.len(),
{
    let out = put(list, a);
    if list.len() > 0 && sooner(a, list.last()) {
        let front = list.drop_last();
        let inner = put(front, a);
        lemma_put(front, a);
        assert(out == inner.push(list.last()));
        assert forall|x: ActivityView| #[trigger] out.contains(x) <==> (x == a || list.contains(
            x,
        )) by {
            if out.contains(x) {
                let i = choose|i: int| 0 <= i < out.len() && out[i] == x;
                if i < inner.len() {
                    assert(inner[i] == x);
                    assert(inner.contains(x));
                    if x != a {
                        let j = choose|j: int| 0 <= j < front.len() && front[j] == x;
                        assert(list[j] == x);
                    }
                } else {
                    assert(list[list.len() - 1] == x);
                }
            }
            if x == a {
                assert(inner.contains(a));
                let i = choose|i: int| 0 <= i < inner.len() && inner[i] == a;
                assert(out[i] == a);
            } else if list.contains(x) {
                let j = choose|j: int| 0 <= j < list.len() && list[j] == x;
                if j < front.len() {
                    assert(front[j] == x);
                    assert(inner.contains(x));
                    let i = choose|i: int| 0 <= i < inner.len() && inner[i] == x;
                    assert(out[i] == x);
                } else {
                    assert(out[out.len() - 1] == x);
                }
            }
        }
        if in_order(list) && (forall|i: int| 0 <= i < list.len() ==> !alike(#[trigger] list[i], a)) {
            assert forall|i: int, j: int| 0 <= i < j < front.len() implies sooner(
                #[trigger] front[i],
                #[trigger] front[j],
            ) by {
                assert(sooner(list[i], list[j]));
            }
            assert forall|i: int| 0 <= i < front.len() implies !alike(#[trigger] front[i], a) by {
                assert(!alike(list[i], a));
            }
            assert(in_order(inner));
            assert forall|i: int, j: int| 0 <= i < j < out.len() implies sooner(
                #[trigger] out[i],
                #[trigger] out[j],
            ) by {
                if j < inner.len() {
                    assert(sooner(inner[i], inner[j]));
                } else {
                    let x = inner[i];
                    assert(inner.contains(x));
                    if x != a {
                        let k = choose|k: int| 0 <= k < front.len() && front[k] == x;
                        assert(sooner(list[k], list[list.len() - 1]));
                    }
                }
            }
        }
    } else {
        assert forall|x: ActivityView| #[trigger] out.contains(x) <==> (x == a || list.contains(
            x,
        )) by {
            if out.contains(x) {
                let i = choose|i: int| 0 <= i < out.len() && out[i] == x;
                if i < list.len() {
                    assert(list[i] == x);
                }
            }
            if x == a {
                assert(out[list.len() as int] == a);
            } else if list.contains(x) {
                let i = choose|i: int| 0 <= i < list.len() && list[i] == x;
                assert(out[i] == x);
            }
        }
        if in_order(list) && (forall|i: int| 0 <= i < list.len() ==> !alike(#[trigger] list[i], a)) {
            assert forall|i: int, j: int| 0 <= i < j < out.len() implies sooner(
                #[trigger] out[i],
                #[trigger] out[j],
            ) by {
                if j < list.len() {
                    assert(sooner(list[i], list[j]));
                } else {
                    let last = list.len() - 1;
                    lemma_sooner_total(list[last], a);
                    assert(!alike(list[last], a));
                    if i < last {
                        assert(sooner(list[i], list[last]));
                        lemma_sooner_transitive(list[i], list[last], a);
                    }
                }
            }
        }
    }
}

/// Arranging keeps the activities, and puts them in order where no two are alike.
pub proof fn lemma_arranged(list: Seq<ActivityView>)
    ensures
        arranged(list).len() == list.len(),
        forall|x: ActivityView| #[trigger] arranged(list).contains(x) <==> list.contains(x),
        all_distinct(list) ==> in_order(arranged(list)),
    decreases list.len(),
{
    if list.len() > 0 {
        let front = list.drop_last();
        let a = list.last();
        lemma_arranged(front);
        lemma_put(arranged(front), a);
        assert forall|x: ActivityView| #[trigger] arranged(list).contains(x) <==> list.contains(
            x,
        ) by {
            assert(arranged(front).contains(x) <==> front.contains(x));
            if front.contains(x) {
                let i = choose|i: int| 0 <= i < front.len() && front[i] == x;
                assert(list[i] == x);
            }
            if x == a {
                assert(list[list.len() - 1] == x);
            }
            if list.contains(x) && x != a {
                let i = choose|i: int| 0 <= i < list.len() && list[i] == x;
                assert(front[i] == x);
            }
        }
        if all_distinct(list) {
            assert forall|i: int, j: int| 0 <= i < j < front.len() implies !alike(
                #[trigger] front[i],
                #[trigger] front[j],
            ) by {
                assert(!alike(list[i], list[j]));
            }
            assert forall|i: int| 0 <= i < arranged(front).len() implies !alike(
                #[trigger] arranged(front)[i],
                a,
            ) by {
                let x = arranged(front)[i];
                assert(arranged(front).contains(x));
                let j = choose|j: int| 0 <= j < front.len() && front[j] == x;
                assert(!alike(list[j], list[list.len() - 1]));
            }
        }
    }
}

/// There is one way to put a set of activities in order.
proof fn lemma_one_order(x: Seq<ActivityView>, y: Seq<ActivityView>)
    requires
        in_order(x),
        in_order(y),
        x.len() == y.len(),
        forall|a: ActivityView| #[trigger] x.contains(a) <==> y.contains(a),
    ensures
        x == y,
    decreases x.len(),
{
    if x.len() > 0 {
        let n = x.len() - 1;
        let p = x.last();
        let q = y.last();
        assert(x[n] == p && y[n] == q);
        assert(x.contains(p) && y.contains(q));
        assert(y.contains(p) && x.contains(q));
        let i = choose|i: int| 0 <= i < x.len() && x[i] == q;
        let j = choose|j: int| 0 <= j < y.len() && y[j] == p;
        lemma_sooner_total(p, q);
        if i < n && j < n {
            assert(sooner(x[i], x[n]));
            assert(sooner(y[j], y[n]));
        }
        assert(p == q);
        let front = x.drop_last();
        let rest = y.drop_last();
        lemma_sooner_total(p, p);
        assert forall|a: ActivityView| #[trigger] front.contains(a) <==> rest.contains(a) by {
            if front.contains(a) {
                let k = choose|k: int| 0 <= k < front.len() && front[k] == a;
                assert(x[k] == a && sooner(x[k], x[n]));
                assert(x.contains(a));
                let m = choose|m: int| 0 <= m < y.len() && y[m] == a;
                assert(rest[m] == a);
            }
            if rest.contains(a) {
                let k = choose|k: int| 0 <= k < rest.len() && rest[k] == a;
                assert(y[k] == a && sooner(y[k], y[n]));
                assert(y.contains(a));
                assert(x.contains(a));
                let m = choose|m: int| 0 <= m < x.len() && x[m] == a;
                assert(front[m] == a);
            }
        }
        assert(in_order(front)) by {
            assert forall|k: int, m: int| 0 <= k < m < front.len() implies sooner(
                #[trigger] front[k],
                #[trigger] front[m],
            ) by {
                assert(sooner(x[k], x[m]));
            }
        }
        assert(in_order(rest)) by {
            assert forall|k: int, m: int| 0 <= k < m < rest.len() implies sooner(
                #[trigger] rest[k],
                #[trigger] rest[m],
            ) by {
                assert(sooner(y[k], y[m]));
            }
        }
        lemma_one_order(front, rest);
        assert(x =~= front.push(p));
        assert(y =~= rest.push(q));
    } else {
        assert(x =~= y);
    }
}

/// The order in which Discord lists activities is of no account: where no two are alike in
/// kind and name, the same activities are arranged in the same way.
pub proof fn law_arranged_is_canonical(x: Seq<ActivityView>, y: Seq<ActivityView>)
    requires
        all_distinct(x),
        all_distinct(y),
        x.len() == y.len(),
        forall|a: ActivityView| #[trigger] x.contains(a) <==> y.contains(a),
    ensures
        arranged(x) == arranged(y),
{
    lemma_arranged(x);
    lemma_arranged(y);
    assert forall|a: ActivityView| #[trigger] arranged(x).contains(a) <==> arranged(y).contains(
        a,
    ) by {
        assert(x.contains(a) <==> y.contains(a));
    }
    lemma_one_order(arranged(x), arranged(y));
}

/// Whether two activities agree on all that may be announced of one. Their times, their
/// secrets, and whatever else Discord tells of them may differ.
pub open spec fn told_alike(a: JsonView, b: JsonView) -> bool {
    &&& member(a, "type"@) == member(b, "type"@)
    &&& member(a, "name"@) == member(b, "name"@)
    &&& member(a, "details"@) == member(b, "details"@)
    &&& member(a, "state"@) == member(b, "state"@)
    &&& member(a, "application_id"@) == member(b, "application_id"@)
    &&& member(member(a, "assets"@), "large_text"@) == member(member(b, "assets"@), "large_text"@)
    &&& member(member(a, "assets"@), "large_image"@) == member(
        member(b, "assets"@),
        "large_image"@,
    )
    &&& member(member(a, "party"@), "size"@) == member(member(b, "party"@), "size"@)
}

/// What Discord lists of a person's activities.
pub open spec fn listed(data: JsonView, user: Seq<char>) -> Seq<JsonView> {
    match first_where(items_in(data, "presences"@), of_user(user)) {
        Some(presence) => items_in(presence, "activities"@),
        None => Seq::empty(),
    }
}

proof fn lemma_told_alike(a: Seq<JsonView>, b: Seq<JsonView>)
    requires
        a.len() == b.len(),
        forall|i: int| 0 <= i < a.len() ==> told_alike(#[trigger] a[i], b[i]),
    ensures
        activities_in(a) == activities_in(b),
    decreases a.len(),
{
    if a.len() > 0 {
        assert forall|i: int| 0 <= i < a.len() - 1 implies told_alike(
            #[trigger] a.drop_last()[i],
            b.drop_last()[i],
        ) by {
            assert(told_alike(a[i], b[i]));
        }
        lemma_told_alike(a.drop_last(), b.drop_last());
        assert(told_alike(a[a.len() - 1], b[a.len() - 1]));
    }
}

/// Time that passes makes no news: a call in which nothing changes but what is never
/// announced, such as the times of activities, keeps its identity.
pub proof fn law_time_makes_no_news(
    before: JsonView,
    after: JsonView,
    user: Seq<char>,
    channel: Seq<char>,
)
    requires
        channel_name(before, channel) == channel_name(after, channel),
        head_count(before, channel) == head_count(after, channel),
        listed(before, user).len() == listed(after, user).len(),
        forall|i: int|
            0 <= i < listed(before, user).len() ==> told_alike(
                #[trigger] listed(before, user)[i],
                listed(after, user)[i],
            ),
    ensures
        fingerprint_of(context_of(before, user, channel), channel) == fingerprint_of(
            context_of(after, user, channel),
            channel,
        ),
{
    lemma_told_alike(listed(before, user), listed(after, user));
}

proof fn lemma_activity_written(a: ActivityView)
    ensures
        well_written(activity_json(a)),
{
    reveal_with_fuel(well_written, 4);
}

/// An activity can be told from its JSON.
proof fn lemma_activity_told(a: ActivityView, b: ActivityView)
    requires
        activity_json(a) == activity_json(b),
    ensures
        a == b,
{
    let x = activity_json(a)->Object_0;
    let y = activity_json(b)->Object_0;
    assert(x[0].1 == y[0].1 && x[1].1 == y[1].1 && x[2].1 == y[2].1 && x[3].1 == y[3].1);
    assert(x[4].1 == y[4].1 && x[5].1 == y[5].1 && x[6].1 == y[6].1);
    if let (Some((m, n)), Some((p, q))) = (a.party, b.party) {
        assert(x[5].1->List_0[0] == y[5].1->List_0[0]);
        assert(x[5].1->List_0[1] == y[5].1->List_0[1]);
    }
    if let (Some(i), Some(j)) = (a.artwork, b.artwork) {
        let u = image_json(i)->Object_0;
        let v = image_json(j)->Object_0;
        assert(u[0].1 == v[0].1 && u[1].1 == v[1].1 && u[2].1 == v[2].1);
        assert(u[3].1 == v[3].1 && u[4].1 == v[4].1);
        reveal_strlit("discord_attachment");
        reveal_strlit("activity_asset");
        assert("discord_attachment"@.len() != "activity_asset"@.len());
        assert(i == j);
    }
}

proof fn lemma_context_written(c: StreamContextView, channel: Seq<char>)
    ensures
        well_written(context_json(c, channel)),
{
    let whole = context_json(c, channel);
    let inside = whole->List_0[1];
    let members = inside->Object_0;
    let n = members.len();
    assert forall|i: int| 0 <= i < n implies well_written((#[trigger] members[i]).1) by {
        if i == n - 1 {
            let list = members[i].1->List_0;
            assert forall|k: int| 0 <= k < list.len() implies well_written(#[trigger] list[k]) by {
                lemma_activity_written(c.activities[k]);
            }
        } else if i == 0 && n == 4 {
            let list = members[i].1->List_0;
            assert forall|k: int| 0 <= k < list.len() implies well_written(#[trigger] list[k]) by {}
        }
    }
    assert(well_written(inside));
    assert(well_written(whole->List_0[0]));
}

/// News are noticed: two calls that differ in anything that is announced have different
/// identities, as far as the texts of which those are the digests. Faces are no news.
pub proof fn law_news_have_another_text(
    c: StreamContextView,
    d: StreamContextView,
    channel: Seq<char>,
    other: Seq<char>,
)
    requires
        c.participants <= u64::MAX,
        d.participants <= u64::MAX,
        channel != other || c.voice_members != d.voice_members || c.channel_name != d.channel_name
            || c.participants != d.participants || c.activities != d.activities,
    ensures
        json_text(context_json(c, channel)) != json_text(context_json(d, other)),
{
    if json_text(context_json(c, channel)) == json_text(context_json(d, other)) {
        lemma_context_written(c, channel);
        lemma_context_written(d, other);
        law_text_tells_values_apart(context_json(c, channel), context_json(d, other));
        let x = context_json(c, channel)->List_0;
        let y = context_json(d, other)->List_0;
        assert(x[0] == y[0] && x[1] == y[1]);
        let p = x[1]->Object_0;
        let q = y[1]->Object_0;
        let n = p.len();
        assert(p[n - 1].1 == q[n - 1].1 && p[n - 2].1 == q[n - 2].1 && p[n - 3].1 == q[n - 3].1);
        let s = p[n - 1].1->List_0;
        let t = q[n - 1].1->List_0;
        assert(s.len() == c.activities.len() && t.len() == d.activities.len());
        assert forall|k: int| 0 <= k < c.activities.len() implies c.activities[k]
            == #[trigger] d.activities[k] by {
            assert(s[k] == t[k]);
            assert(s[k] == activity_json(c.activities[k]));
            assert(t[k] == activity_json(d.activities[k]));
            lemma_activity_told(c.activities[k], d.activities[k]);
        }
        assert(c.activities =~= d.activities);
        if n == 4 {
            let u = p[0].1->List_0;
            let v = q[0].1->List_0;
            assert(p[0].1 == q[0].1);
            assert(u.len() == v.len());
            assert forall|k: int| 0 <= k < c.voice_members.len() implies c.voice_members[k]
                == #[trigger] d.voice_members[k] by {
                assert(u[k] == v[k]);
            }
        }
        assert(c.voice_members =~= d.voice_members);
    }
}

proof fn lemma_activities_joined(s: Seq<JsonView>, t: Seq<JsonView>)
    ensures
        activities_in(s + t) == activities_in(s) + activities_in(t),
    decreases t.len(),
{
    if t.len() == 0 {
        assert(s + t =~= s);
        assert(activities_in(s) + activities_in(t) =~= activities_in(s));
    } else {
        lemma_activities_joined(s, t.drop_last());
        assert((s + t).drop_last() =~= s + t.drop_last());
        assert((s + t).last() == t.last());
        assert(activities_in(s + t) =~= activities_in(s) + activities_in(t));
    }
}

/// The same raw activities in another order are the same activities in another order.
proof fn lemma_activities_reordered(x: Seq<JsonView>, y: Seq<JsonView>)
    requires
        x.to_multiset() == y.to_multiset(),
    ensures
        activities_in(x).to_multiset() == activities_in(y).to_multiset(),
    decreases x.len(),
{
    broadcast use vstd::multiset::group_multiset_axioms;

    x.to_multiset_ensures();
    y.to_multiset_ensures();
    if x.len() == 0 {
        assert(x =~= y);
    } else {
        let r = x.last();
        let front = x.drop_last();
        assert(x[x.len() - 1] == r);
        assert(x.contains(r));
        assert(y.contains(r)) by {
            assert(x.to_multiset().count(r) > 0);
        }
        let j = choose|j: int| 0 <= j < y.len() && y[j] == r;
        let rest = y.remove(j);
        front.to_multiset_ensures();
        assert(front.push(r) =~= x);
        assert(rest.to_multiset() =~= front.to_multiset());
        lemma_activities_reordered(front, rest);
        let s = y.take(j);
        let t = y.skip(j + 1);
        let one = seq![r];
        assert(y =~= s + one + t);
        assert(rest =~= s + t);
        lemma_activities_joined(s + one, t);
        lemma_activities_joined(s, one);
        lemma_activities_joined(s, t);
        lemma_activities_joined(front, one);
        assert(x =~= front + one);
        let (p, q, m) = (activities_in(s), activities_in(t), activities_in(one));
        let f = activities_in(front);
        vstd::seq_lib::lemma_multiset_commutative(p + m, q);
        vstd::seq_lib::lemma_multiset_commutative(p, m);
        vstd::seq_lib::lemma_multiset_commutative(p, q);
        vstd::seq_lib::lemma_multiset_commutative(f, m);
        assert(activities_in(x).to_multiset() =~= activities_in(y).to_multiset());
    }
}

/// Activities in another order are as distinct as before.
proof fn lemma_distinct_reordered(x: Seq<ActivityView>, y: Seq<ActivityView>)
    requires
        all_distinct(x),
        x.to_multiset() == y.to_multiset(),
    ensures
        all_distinct(y),
        x.len() == y.len(),
        forall|a: ActivityView| #[trigger] x.contains(a) <==> y.contains(a),
{
    x.to_multiset_ensures();
    y.to_multiset_ensures();
    assert forall|a: ActivityView| #[trigger] x.contains(a) <==> y.contains(a) by {
        vstd::seq_lib::to_multiset_contains(x, a);
        vstd::seq_lib::to_multiset_contains(y, a);
    }
    assert(x.no_duplicates()) by {
        assert forall|i: int, j: int| 0 <= i < j < x.len() implies x[i] != x[j] by {
            assert(!alike(x[i], x[j]));
        }
    }
    x.lemma_multiset_has_no_duplicates();
    y.lemma_multiset_has_no_duplicates_conv();
    assert forall|i: int, j: int| 0 <= i < j < y.len() implies !alike(
        #[trigger] y[i],
        #[trigger] y[j],
    ) by {
        assert(y.contains(y[i]) && y.contains(y[j]));
        assert(x.contains(y[i]) && x.contains(y[j]));
        let k = choose|k: int| 0 <= k < x.len() && x[k] == y[i];
        let l = choose|l: int| 0 <= l < x.len() && x[l] == y[j];
        assert(y[i] != y[j]);
        if k < l {
            assert(!alike(x[k], x[l]));
        } else {
            assert(!alike(x[l], x[k]));
        }
    }
}

/// The order in which Discord lists a person's activities makes no news: where no two that may
/// be announced are alike in kind and name, the same list in another order gives the same
/// context and the same identity.
pub proof fn law_order_makes_no_news(
    before: JsonView,
    after: JsonView,
    user: Seq<char>,
    channel: Seq<char>,
)
    requires
        channel_name(before, channel) == channel_name(after, channel),
        head_count(before, channel) == head_count(after, channel),
        listed(before, user).to_multiset() == listed(after, user).to_multiset(),
        all_distinct(activities_in(listed(before, user))),
    ensures
        context_of(before, user, channel) == context_of(after, user, channel),
        fingerprint_of(context_of(before, user, channel), channel) == fingerprint_of(
            context_of(after, user, channel),
            channel,
        ),
{
    let x = activities_in(listed(before, user));
    let y = activities_in(listed(after, user));
    lemma_activities_reordered(listed(before, user), listed(after, user));
    lemma_distinct_reordered(x, y);
    law_arranged_is_canonical(x, y);
}

} // verus!
