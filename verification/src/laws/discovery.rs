//! Who streams and who is in which call, from what Discord says of a server.
use vstd::prelude::*;
use vstd::string::*;

use crate::activity::{channel_name, context_of, first_where, has_id, items_in, of_user};
use crate::avatars::{global_name, member_result, shown_name, AvatarView};
use crate::config::ServerView;
use crate::discord::{
    all_known, ascending, cleaned, guild_result, includes, is_game, is_inside, last_where,
    law_occupants_are_the_people_inside, occupants_of, occupied, person_of, played_title, repeated,
    rooms_of, seated, shows_person, stream_of, streamed_in, streams_of, voice_in, voice_result,
    DiscordError, OccupantView, TargetView, VoiceView,
};
use crate::json::{has_member, member, JsonView};
use crate::laws::reading::{law_members_are_found, law_the_first_is_found, law_the_last_is_found};
use crate::table::precedes;
use crate::text::blank;

verus! {

/// Whether the member at this place is the one with this ID: the last that has it.
pub open spec fn is_member(members: Seq<JsonView>, id: Seq<char>, k: int) -> bool {
    &&& 0 <= k < members.len()
    &&& member(member(members[k], "user"@), "id"@) == JsonView::Text(id)
    &&& forall|j: int|
        k < j < members.len() ==> member(member(#[trigger] members[j], "user"@), "id"@)
            != JsonView::Text(id)
}

/// Whether the member at this place is the one with this ID, and no bot.
pub open spec fn is_human(members: Seq<JsonView>, id: Seq<char>, k: int) -> bool {
    is_member(members, id, k) && member(member(members[k], "user"@), "bot"@) != JsonView::Bool(true)
}

pub open spec fn has_human(members: Seq<JsonView>, id: Seq<char>) -> bool {
    exists|k: int| is_human(members, id, k)
}

/// Whether a voice state says that a person streams in a configured channel.
pub open spec fn says_stream(
    channels: Seq<Seq<char>>,
    members: Seq<JsonView>,
    state: JsonView,
) -> bool {
    &&& member(state, "self_stream"@) == JsonView::Bool(true)
    &&& member(state, "channel_id"@) is Text
    &&& channels.contains(member(state, "channel_id"@)->Text_0)
    &&& member(state, "user_id"@) is Text
    &&& has_human(members, member(state, "user_id"@)->Text_0)
}

/// Whether a voice state says that the person with this ID is in a channel.
pub open spec fn says_inside(
    members: Seq<JsonView>,
    channel: Seq<char>,
    id: Seq<char>,
    state: JsonView,
) -> bool {
    &&& member(state, "channel_id"@) == JsonView::Text(channel)
    &&& member(state, "user_id"@) == JsonView::Text(id)
    &&& has_human(members, id)
}

/// Whether a target is the stream that a voice state tells of.
pub open spec fn is_stream_of(
    server: ServerView,
    data: JsonView,
    members: Seq<JsonView>,
    state: JsonView,
    target: TargetView,
    k: int,
) -> bool {
    let (who, voice) = target;
    &&& is_human(members, who.user_id, k)
    &&& member(state, "user_id"@) == JsonView::Text(who.user_id)
    &&& member(state, "session_id"@) == JsonView::Text(voice.session_id)
    &&& voice.channel_id is Some
    &&& member(state, "channel_id"@) == JsonView::Text(voice.channel_id->0)
    &&& voice.self_stream
    &&& who.guild_id == server.guild_id
    &&& who.display_name == shown_name(members[k], "Discord配信者"@)
    &&& who.voice_channel_ids == server.voice_channel_ids
    &&& who.announcement_channel_id == server.announcement_channel_id
    &&& who.screenshots == server.screenshots
    &&& !server.use_activity ==> who.default_title == server.default_title && voice.context is None
    &&& server.use_activity ==> {
        &&& voice.context == Some(context_of(data, who.user_id, voice.channel_id->0))
        &&& match played_title(data, who.user_id) {
            Some(title) => who.default_title == title,
            None => who.default_title == server.default_title,
        }
    }
}

/// Whether a target is the stream that a voice state tells of, whoever the person is.
pub open spec fn finds(
    server: ServerView,
    data: JsonView,
    members: Seq<JsonView>,
    state: JsonView,
    target: TargetView,
) -> bool {
    exists|k: int| is_stream_of(server, data, members, state, target, k)
}

/// Whether a member is the one with this ID, and no bot.
spec fn is_person(members: Seq<JsonView>, id: Seq<char>, person: JsonView) -> bool {
    exists|k: int| #[trigger] is_human(members, id, k) && members[k] == person
}

proof fn lemma_last_member(members: Seq<JsonView>, id: Seq<char>)
    ensures
        forall|k: int| #[trigger]
            is_member(members, id, k) ==> last_where(members, of_user(id)) == Some(members[k]),
        last_where(members, of_user(id)) matches Some(found) ==> exists|k: int| #[trigger]
            is_member(members, id, k) && members[k] == found,
{
    let test = of_user(id);
    law_the_last_is_found(members, test);
    if last_where(members, test) is Some {
        let found = last_where(members, test)->0;
        let k = choose|k: int|
            0 <= k < members.len() && #[trigger] members[k] == found && test(found) && forall|
                j: int,
            |
                k < j < members.len() ==> !test(#[trigger] members[j]);
        assert forall|j: int| k < j < members.len() implies member(
            member(#[trigger] members[j], "user"@),
            "id"@,
        ) != JsonView::Text(id) by {
            assert(!test(members[j]));
        }
        assert(is_member(members, id, k));
        assert forall|m: int| #[trigger] is_member(members, id, m) implies members[m] == found by {
            if m < k {
                assert(member(member(members[k], "user"@), "id"@) == JsonView::Text(id));
            } else if k < m {
                assert(!test(members[m]));
            }
        }
    } else {
        assert forall|m: int| #[trigger] is_member(members, id, m) implies false by {
            assert(!test(members[m]));
        }
    }
}

/// Whom a voice state speaks of.
proof fn lemma_person(members: Seq<JsonView>, state: JsonView)
    ensures
        person_of(members, state) matches Ok(Some((id, person))) ==> member(state, "user_id"@)
            == JsonView::Text(id) && is_person(members, id, person),
        person_of(members, state) matches Ok(None) ==> member(state, "user_id"@) is Text
            && !has_human(members, member(state, "user_id"@)->Text_0),
        member(state, "user_id"@) is Text && has_human(
            members,
            member(state, "user_id"@)->Text_0,
        ) ==> person_of(members, state) matches Ok(Some(_)),
{
    if let JsonView::Text(id) = member(state, "user_id"@) {
        lemma_last_member(members, id);
        if last_where(members, of_user(id)) is Some {
            let found = last_where(members, of_user(id))->0;
            let k = choose|k: int| #[trigger] is_member(members, id, k) && members[k] == found;
            if member(member(found, "user"@), "bot"@) != JsonView::Bool(true) {
                assert(is_human(members, id, k));
                assert(is_person(members, id, found));
            } else if has_human(members, id) {
                let m = choose|m: int| is_human(members, id, m);
                assert(is_member(members, id, m));
            }
        } else if has_human(members, id) {
            let m = choose|m: int| is_human(members, id, m);
            assert(is_member(members, id, m));
        }
    }
}

proof fn lemma_stream(server: ServerView, data: JsonView, members: Seq<JsonView>, state: JsonView)
    requires
        stream_of(server, data, members, state) is Ok,
    ensures
        stream_of(server, data, members, state)->Ok_0 is Some <==> says_stream(
            server.voice_channel_ids,
            members,
            state,
        ),
        stream_of(server, data, members, state)->Ok_0 matches Some(target) ==> finds(
            server,
            data,
            members,
            state,
            target,
        ),
{
    lemma_person(members, state);
    law_members_are_found(state, "self_stream"@);
    let r = stream_of(server, data, members, state);
    if says_stream(server.voice_channel_ids, members, state) {
        assert(state is Object);
        if !has_member(state, "self_stream"@) {
            assert forall|i: int| 0 <= i < state->Object_0.len() implies (
            #[trigger] state->Object_0[i]).0 != "self_stream"@ by {}
            assert(false);
        }
        assert(r->Ok_0 is Some);
    }
    if let Some(target) = r->Ok_0 {
        let voice = voice_in(state)->0;
        let (id, person) = person_of(members, state)->Ok_0->0;
        let k = choose|k: int| #[trigger] is_human(members, id, k) && members[k] == person;
        assert(state is Object);
        if has_member(state, "self_stream"@) {
            assert(member(state, "self_stream"@) == JsonView::Bool(true));
        }
        assert(is_stream_of(server, data, members, state, target, k));
        assert(has_human(members, id));
        assert(says_stream(server.voice_channel_ids, members, state));
    }
}

/// The streams that voice states tell of, in their order.
pub open spec fn told_streams(
    server: ServerView,
    members: Seq<JsonView>,
    states: Seq<JsonView>,
) -> Seq<JsonView> {
    states.filter(|state: JsonView| says_stream(server.voice_channel_ids, members, state))
}

pub open spec fn all_found(
    server: ServerView,
    data: JsonView,
    members: Seq<JsonView>,
    told: Seq<JsonView>,
    list: Seq<TargetView>,
) -> bool {
    forall|i: int|
        0 <= i < told.len() ==> finds(server, data, members, told[i], #[trigger] list[i])
}

proof fn lemma_streams(
    server: ServerView,
    data: JsonView,
    members: Seq<JsonView>,
    states: Seq<JsonView>,
)
    requires
        streams_of(server, data, members, states) is Ok,
    ensures
        ({
            let list = streams_of(server, data, members, states)->Ok_0;
            let told = told_streams(server, members, states);
            &&& list.len() == told.len()
            &&& all_found(server, data, members, told, list)
        }),
        forall|i: int| 0 <= i < states.len() ==> voice_in(#[trigger] states[i]) is Some,
    decreases states.len(),
{
    reveal(Seq::filter);
    if states.len() > 0 {
        let front = states.drop_last();
        lemma_streams(server, data, members, front);
        lemma_stream(server, data, members, states.last());
        let before = streams_of(server, data, members, front)->Ok_0;
        let list = streams_of(server, data, members, states)->Ok_0;
        let told = told_streams(server, members, states);
        let known = told_streams(server, members, front);
        assert forall|i: int| 0 <= i < told.len() implies finds(
            server,
            data,
            members,
            told[i],
            #[trigger] list[i],
        ) by {
            if i < known.len() {
                assert(told[i] == known[i]);
                assert(list[i] == before[i]);
            } else {
                assert(told[i] == states.last());
            }
        }
        assert forall|i: int| 0 <= i < states.len() implies voice_in(
            #[trigger] states[i],
        ) is Some by {
            if i < front.len() {
                assert(front[i] == states[i]);
            }
        }
    }
}

/// Everybody who streams is found: the targets begin with as many streams as voice states tell
/// of a person who streams in a configured channel, in the order of the voice states, each with
/// its person, channel and session. No other target is a stream.
pub proof fn law_every_stream_is_found(server: ServerView, data: JsonView)
    requires
        guild_result(server, data) is Ok,
    ensures
        ({
            let list = guild_result(server, data)->Ok_0;
            let members = items_in(data, "members"@);
            let told = told_streams(server, members, items_in(data, "voice_states"@));
            &&& told.len() <= list.len()
            &&& all_found(server, data, members, told, list)
            &&& forall|i: int| told.len() <= i < list.len() ==> !(#[trigger] list[i]).1.self_stream
        }),
{
    let members = items_in(data, "members"@);
    let states = items_in(data, "voice_states"@);
    lemma_streams(server, data, members, states);
    let streams = streams_of(server, data, members, states)->Ok_0;
    let n = server.voice_channel_ids.len() as int;
    lemma_rooms(server, data, streams, n);
    let rooms = rooms_of(server, data, streams, n)->Ok_0;
    let list = guild_result(server, data)->Ok_0;
    let told = told_streams(server, members, states);
    assert(list == streams + rooms);
    assert forall|i: int| 0 <= i < told.len() implies finds(
        server,
        data,
        members,
        told[i],
        #[trigger] list[i],
    ) by {
        assert(list[i] == streams[i]);
    }
    assert forall|i: int| told.len() <= i < list.len() implies !(
    #[trigger] list[i]).1.self_stream by {
        assert(list[i] == rooms[i - streams.len()]);
    }
}

/// One stream is among the targets, whoever else streams.
pub proof fn law_a_stream_is_found(server: ServerView, data: JsonView, i: int)
    requires
        guild_result(server, data) is Ok,
        0 <= i < items_in(data, "voice_states"@).len(),
        says_stream(
            server.voice_channel_ids,
            items_in(data, "members"@),
            items_in(data, "voice_states"@)[i],
        ),
    ensures
        ({
            let state = items_in(data, "voice_states"@)[i];
            exists|j: int|
                0 <= j < guild_result(server, data)->Ok_0.len() && {
                    let (who, voice) = #[trigger] guild_result(server, data)->Ok_0[j];
                    &&& voice.self_stream
                    &&& member(state, "user_id"@) == JsonView::Text(who.user_id)
                    &&& member(state, "session_id"@) == JsonView::Text(voice.session_id)
                    &&& voice.channel_id is Some
                    &&& member(state, "channel_id"@) == JsonView::Text(voice.channel_id->0)
                }
        }),
{
    law_every_stream_is_found(server, data);
    let members = items_in(data, "members"@);
    let states = items_in(data, "voice_states"@);
    let test = |state: JsonView| says_stream(server.voice_channel_ids, members, state);
    let told = told_streams(server, members, states);
    states.lemma_filter_contains(test, i);
    assert(told.contains(states[i]));
    let j = told.index_of(states[i]);
    let list = guild_result(server, data)->Ok_0;
    assert(told[j] == states[i]);
    let k = choose|k: int| is_stream_of(server, data, members, told[j], list[j], k);
    assert(is_stream_of(server, data, members, states[i], list[j], k));
    assert(guild_result(server, data)->Ok_0[j] == list[j]);
}

/// The room of a channel, where it is one.
spec fn is_room(
    server: ServerView,
    data: JsonView,
    streams: Seq<TargetView>,
    channel: Seq<char>,
    room: TargetView,
) -> bool {
    let people = occupants_of(
        server.guild_id,
        items_in(data, "members"@),
        items_in(data, "voice_states"@),
        channel,
    );
    &&& !streamed_in(streams, channel)
    &&& people is Ok
    &&& people->Ok_0.len() > 0
    &&& room == occupied(server, data, channel, people->Ok_0)
}

proof fn lemma_rooms(server: ServerView, data: JsonView, streams: Seq<TargetView>, n: int)
    requires
        0 <= n <= server.voice_channel_ids.len(),
        rooms_of(server, data, streams, n) is Ok,
    ensures
        ({
            let ids = server.voice_channel_ids;
            let rooms = rooms_of(server, data, streams, n)->Ok_0;
            &&& forall|i: int|
                0 <= i < rooms.len() ==> exists|k: int|
                    0 <= k < n && is_room(server, data, streams, ids[k], #[trigger] rooms[i])
                        && rooms[i].1.channel_id == Some(#[trigger] ids[k])
            &&& forall|i: int| 0 <= i < rooms.len() ==> !(#[trigger] rooms[i]).1.self_stream
            &&& forall|k: int|
                0 <= k < n ==> {
                    let people = occupants_of(
                        server.guild_id,
                        items_in(data, "members"@),
                        items_in(data, "voice_states"@),
                        #[trigger] ids[k],
                    );
                    !streamed_in(streams, ids[k]) ==> people is Ok && (people->Ok_0.len() > 0
                        ==> rooms.contains(occupied(server, data, ids[k], people->Ok_0)))
                }
        }),
    decreases n,
{
    if n > 0 {
        let ids = server.voice_channel_ids;
        lemma_rooms(server, data, streams, n - 1);
        let before = rooms_of(server, data, streams, n - 1)->Ok_0;
        let rooms = rooms_of(server, data, streams, n)->Ok_0;
        let last = ids[n - 1];
        assert forall|i: int| 0 <= i < rooms.len() implies exists|k: int|
            0 <= k < n && is_room(server, data, streams, ids[k], #[trigger] rooms[i])
                && rooms[i].1.channel_id == Some(#[trigger] ids[k]) by {
            if i < before.len() {
                assert(rooms[i] == before[i]);
                let k = choose|k: int|
                    0 <= k < n - 1 && is_room(server, data, streams, ids[k], before[i])
                        && before[i].1.channel_id == Some(#[trigger] ids[k]);
                assert(is_room(server, data, streams, ids[k], rooms[i]));
            } else {
                assert(is_room(server, data, streams, last, rooms[i]));
                assert(rooms[i].1.channel_id == Some(ids[n - 1]));
            }
        }
        assert forall|k: int| 0 <= k < n implies {
            let people = occupants_of(
                server.guild_id,
                items_in(data, "members"@),
                items_in(data, "voice_states"@),
                #[trigger] ids[k],
            );
            !streamed_in(streams, ids[k]) ==> people is Ok && (people->Ok_0.len() > 0
                ==> rooms.contains(occupied(server, data, ids[k], people->Ok_0)))
        } by {
            let people = occupants_of(
                server.guild_id,
                items_in(data, "members"@),
                items_in(data, "voice_states"@),
                ids[k],
            );
            if !streamed_in(streams, ids[k]) {
                if k == n - 1 && !repeated(ids, n - 1) {
                    if people->Ok_0.len() > 0 {
                        assert(rooms[rooms.len() - 1] == occupied(
                            server,
                            data,
                            ids[k],
                            people->Ok_0,
                        ));
                    }
                } else {
                    let m = if k == n - 1 {
                        ids.take(n - 1).index_of(ids[n - 1])
                    } else {
                        k
                    };
                    if k == n - 1 {
                        assert(ids.take(n - 1)[m] == ids[m]);
                    }
                    assert(ids[m] == ids[k]);
                    if people->Ok_0.len() > 0 {
                        let room = occupied(server, data, ids[k], people->Ok_0);
                        assert(before.contains(room));
                        let i = before.index_of(room);
                        assert(rooms[i] == room);
                    }
                }
            }
        }
    }
}

proof fn lemma_seated_from(list: Seq<OccupantView>, person: OccupantView)
    ensures
        forall|x: OccupantView| #[trigger]
            seated(list, person).contains(x) ==> x == person || list.contains(x),
    decreases list.len(),
{
    let out = seated(list, person);
    assert forall|x: OccupantView| #[trigger] out.contains(x) implies x == person || list.contains(
        x,
    ) by {
        let k = out.index_of(x);
        if list.len() == 0 || precedes(list.last().id, person.id) {
            if k < list.len() {
                assert(list[k] == x);
            }
        } else if list.last().id != person.id {
            let front = list.drop_last();
            lemma_seated_from(front, person);
            let inner = seated(front, person);
            if k < inner.len() {
                assert(inner.contains(x));
                if x != person {
                    let m = front.index_of(x);
                    assert(list[m] == x);
                }
            } else {
                assert(list[list.len() - 1] == x);
            }
        }
    }
}

proof fn lemma_occupants(
    guild: Seq<char>,
    members: Seq<JsonView>,
    states: Seq<JsonView>,
    channel: Seq<char>,
)
    requires
        occupants_of(guild, members, states, channel) is Ok,
    ensures
        forall|x: OccupantView| #[trigger]
            occupants_of(guild, members, states, channel)->Ok_0.contains(x) ==> exists|k: int|
                is_human(members, x.id, k) && member_result(#[trigger] members[k], guild) == Ok::<
                    AvatarView,
                    crate::avatars::AvatarError,
                >(x.avatar),
    decreases states.len(),
{
    if states.len() > 0 {
        let front = states.drop_last();
        let last = states.last();
        lemma_occupants(guild, members, front, channel);
        lemma_person(members, last);
        let before = occupants_of(guild, members, front, channel)->Ok_0;
        let list = occupants_of(guild, members, states, channel)->Ok_0;
        if member(last, "channel_id"@) == JsonView::Text(channel) && person_of(
            members,
            last,
        )->Ok_0 is Some {
            let (id, person) = person_of(members, last)->Ok_0->0;
            let own = OccupantView { id, avatar: member_result(person, guild)->Ok_0 };
            lemma_seated_from(before, own);
            let k = choose|k: int| #[trigger] is_human(members, id, k) && members[k] == person;
            assert forall|x: OccupantView| #[trigger] list.contains(x) implies exists|k: int|
                is_human(members, x.id, k) && member_result(#[trigger] members[k], guild) == Ok::<
                    AvatarView,
                    crate::avatars::AvatarError,
                >(x.avatar) by {
                if x == own {
                    assert(is_human(members, x.id, k));
                    assert(member_result(members[k], guild) == Ok::<
                        AvatarView,
                        crate::avatars::AvatarError,
                    >(x.avatar));
                } else {
                    assert(before.contains(x));
                }
            }
        } else {
            assert(list == before);
        }
    }
}

/// Whether somebody is in a channel.
pub open spec fn is_busy(
    members: Seq<JsonView>,
    states: Seq<JsonView>,
    channel: Seq<char>,
) -> bool {
    exists|id: Seq<char>, i: int|
        0 <= i < states.len() && says_inside(members, channel, id, #[trigger] states[i]) && #[trigger] has_human(
            members,
            id,
        )
}

proof fn lemma_inside(
    members: Seq<JsonView>,
    states: Seq<JsonView>,
    channel: Seq<char>,
    id: Seq<char>,
)
    ensures
        is_inside(members, states, channel, id) <==> exists|i: int|
            0 <= i < states.len() && says_inside(members, channel, id, #[trigger] states[i]),
{
    assert forall|i: int| 0 <= i < states.len() implies shows_person(
        members,
        #[trigger] states[i],
        channel,
        id,
    ) == says_inside(members, channel, id, states[i]) by {
        lemma_person(members, states[i]);
        if shows_person(members, states[i], channel, id) {
            let k = choose|k: int| #[trigger] is_human(members, id, k);
            assert(has_human(members, id));
        }
    }
    if is_inside(members, states, channel, id) {
        let i = choose|i: int|
            0 <= i < states.len() && shows_person(members, #[trigger] states[i], channel, id);
        assert(says_inside(members, channel, id, states[i]));
    }
    if exists|i: int|
        0 <= i < states.len() && says_inside(members, channel, id, #[trigger] states[i]) {
        let i = choose|i: int|
            0 <= i < states.len() && says_inside(members, channel, id, #[trigger] states[i]);
        assert(shows_person(members, states[i], channel, id));
    }
}

/// Whether a target lists the people in its channel: exactly those whom a voice state shows
/// there, each once, ascending by their IDs, with their names and portraits.
pub open spec fn lists_people(
    server: ServerView,
    data: JsonView,
    channel: Seq<char>,
    room: TargetView,
    ids: Seq<Seq<char>>,
) -> bool {
    let members = items_in(data, "members"@);
    let states = items_in(data, "voice_states"@);
    let context = room.1.context->0;
    &&& room.0.guild_id == server.guild_id
    &&& room.0.user_id == "voice-"@ + channel
    &&& room.0.display_name == channel_name(data, channel)
    &&& room.0.voice_channel_ids == server.voice_channel_ids
    &&& room.0.default_title == server.default_title
    &&& room.0.announcement_channel_id == server.announcement_channel_id
    &&& room.0.screenshots == server.screenshots
    &&& room.1.channel_id == Some(channel)
    &&& room.1.session_id == "voice-"@ + channel
    &&& !room.1.self_stream
    &&& room.1.context is Some
    &&& context.channel_name == channel_name(data, channel)
    &&& context.activities.len() == 0
    &&& context.participants == ids.len()
    &&& context.voice_members.len() == ids.len()
    &&& context.avatars.len() == ids.len()
    &&& ids.len() > 0
    &&& forall|i: int, j: int|
        0 <= i < j < ids.len() ==> precedes(#[trigger] ids[i], #[trigger] ids[j])
    &&& forall|id: Seq<char>| #[trigger]
        ids.contains(id) <==> exists|i: int|
            0 <= i < states.len() && says_inside(members, channel, id, #[trigger] states[i])
    &&& forall|i: int|
        0 <= i < ids.len() ==> {
            &&& context.voice_members[i] == context.avatars[i].name
            &&& exists|k: int|
                is_human(members, #[trigger] ids[i], k) && member_result(
                    #[trigger] members[k],
                    server.guild_id,
                ) == Ok::<AvatarView, crate::avatars::AvatarError>(context.avatars[i])
        }
}

proof fn lemma_room_lists(
    server: ServerView,
    data: JsonView,
    channel: Seq<char>,
    people: Seq<OccupantView>,
)
    requires
        occupants_of(
            server.guild_id,
            items_in(data, "members"@),
            items_in(data, "voice_states"@),
            channel,
        ) == Ok::<Seq<OccupantView>, DiscordError>(people),
        people.len() > 0,
    ensures
        lists_people(
            server,
            data,
            channel,
            occupied(server, data, channel, people),
            people.map_values(|p: OccupantView| p.id),
        ),
{
    let members = items_in(data, "members"@);
    let states = items_in(data, "voice_states"@);
    let ids = people.map_values(|p: OccupantView| p.id);
    let room = occupied(server, data, channel, people);
    let context = room.1.context->0;
    law_occupants_are_the_people_inside(server.guild_id, members, states, channel);
    lemma_occupants(server.guild_id, members, states, channel);
    assert forall|i: int, j: int| 0 <= i < j < ids.len() implies precedes(
        #[trigger] ids[i],
        #[trigger] ids[j],
    ) by {
        assert(precedes(people[i].id, people[j].id));
    }
    assert forall|id: Seq<char>| #[trigger] ids.contains(id) <==> exists|i: int|
        0 <= i < states.len() && says_inside(members, channel, id, #[trigger] states[i]) by {
        lemma_inside(members, states, channel, id);
        assert(includes(people, id) <==> is_inside(members, states, channel, id));
        if ids.contains(id) {
            let k = ids.index_of(id);
            assert(people[k].id == id);
        }
        if includes(people, id) {
            let k = choose|k: int| 0 <= k < people.len() && (#[trigger] people[k]).id == id;
            assert(ids[k] == id);
        }
    }
    assert forall|i: int| 0 <= i < ids.len() implies {
        &&& context.voice_members[i] == context.avatars[i].name
        &&& exists|k: int|
            is_human(members, #[trigger] ids[i], k) && member_result(
                #[trigger] members[k],
                server.guild_id,
            ) == Ok::<AvatarView, crate::avatars::AvatarError>(context.avatars[i])
    } by {
        assert(people.contains(people[i]));
        let k = choose|k: int|
            is_human(members, people[i].id, k) && member_result(
                #[trigger] members[k],
                server.guild_id,
            ) == Ok::<AvatarView, crate::avatars::AvatarError>(people[i].avatar);
        assert(is_human(members, ids[i], k));
    }
}

/// A configured channel is a target of its own exactly where somebody is in it and nobody
/// streams there, and then it lists all who are in it.
pub proof fn law_every_occupied_channel_is_found(
    server: ServerView,
    data: JsonView,
    channel: Seq<char>,
)
    requires
        guild_result(server, data) is Ok,
        server.voice_channel_ids.contains(channel),
    ensures
        ({
            let list = guild_result(server, data)->Ok_0;
            let members = items_in(data, "members"@);
            let states = items_in(data, "voice_states"@);
            let quiet = forall|i: int|
                0 <= i < states.len() && says_stream(
                    server.voice_channel_ids,
                    members,
                    #[trigger] states[i],
                ) ==> member(states[i], "channel_id"@) != JsonView::Text(channel);
            let listed = exists|j: int|
                0 <= j < list.len() && !list[j].1.self_stream && (
                #[trigger] list[j]).1.channel_id == Some(channel);
            &&& listed <==> quiet && is_busy(members, states, channel)
            &&& forall|j: int|
                0 <= j < list.len() && !(#[trigger] list[j]).1.self_stream && list[j].1.channel_id
                    == Some(channel) ==> exists|ids: Seq<Seq<char>>|
                    lists_people(server, data, channel, list[j], ids)
        }),
{
    let members = items_in(data, "members"@);
    let states = items_in(data, "voice_states"@);
    let ids = server.voice_channel_ids;
    let n = ids.len() as int;
    let list = guild_result(server, data)->Ok_0;
    let streams = streams_of(server, data, members, states)->Ok_0;
    let rooms = rooms_of(server, data, streams, n)->Ok_0;
    let told = told_streams(server, members, states);
    let test = |state: JsonView| says_stream(ids, members, state);
    lemma_streams(server, data, members, states);
    lemma_rooms(server, data, streams, n);
    assert(list == streams + rooms);
    let quiet = forall|i: int|
        0 <= i < states.len() && says_stream(ids, members, #[trigger] states[i]) ==> member(
            states[i],
            "channel_id"@,
        ) != JsonView::Text(channel);
    // Somebody streams in the channel exactly where a voice state says so.
    assert(quiet <==> !streamed_in(streams, channel)) by {
        if streamed_in(streams, channel) {
            let j = choose|j: int|
                0 <= j < streams.len() && (#[trigger] streams[j]).1.channel_id == Some(channel);
            let k = choose|k: int| is_stream_of(server, data, members, told[j], streams[j], k);
            assert(member(told[j], "channel_id"@) == JsonView::Text(channel));
            states.lemma_filter_pred(test, j);
            states.lemma_filter_contains_rev(test, told[j]);
            let i = states.index_of(told[j]);
            assert(states[i] == told[j]);
            assert(says_stream(ids, members, states[i]));
        }
        if !quiet {
            let i = choose|i: int|
                0 <= i < states.len() && says_stream(ids, members, #[trigger] states[i]) && member(
                    states[i],
                    "channel_id"@,
                ) == JsonView::Text(channel);
            states.lemma_filter_contains(test, i);
            let j = told.index_of(states[i]);
            assert(told[j] == states[i]);
            let k = choose|k: int| is_stream_of(server, data, members, told[j], streams[j], k);
            assert(streams[j].1.channel_id == Some(channel));
        }
    }
    let c = ids.index_of(channel);
    assert(ids[c] == channel);
    let people = occupants_of(server.guild_id, members, states, channel);
    if !streamed_in(streams, channel) {
        assert(people is Ok);
        law_occupants_are_the_people_inside(server.guild_id, members, states, channel);
        if is_busy(members, states, channel) {
            let (id, i) = choose|id: Seq<char>, i: int|
                0 <= i < states.len() && says_inside(members, channel, id, #[trigger] states[i])
                    && #[trigger] has_human(members, id);
            lemma_inside(members, states, channel, id);
            assert(includes(people->Ok_0, id));
            assert(people->Ok_0.len() > 0);
            let room = occupied(server, data, channel, people->Ok_0);
            assert(rooms.contains(room));
            let j = rooms.index_of(room);
            assert(list[streams.len() + j] == room);
            assert(list[streams.len() + j].1.channel_id == Some(channel));
        }
        if people->Ok_0.len() > 0 {
            let one = people->Ok_0[0];
            assert(includes(people->Ok_0, one.id));
            lemma_inside(members, states, channel, one.id);
            let i = choose|i: int|
                0 <= i < states.len() && says_inside(
                    members,
                    channel,
                    one.id,
                    #[trigger] states[i],
                );
            assert(has_human(members, one.id));
            assert(is_busy(members, states, channel));
        }
    }
    assert forall|j: int|
        0 <= j < list.len() && !(#[trigger] list[j]).1.self_stream && list[j].1.channel_id == Some(
            channel,
        ) implies !streamed_in(streams, channel) && people is Ok && people->Ok_0.len() > 0
        && exists|who: Seq<Seq<char>>| lists_people(server, data, channel, list[j], who) by {
        if j < streams.len() {
            assert(list[j] == streams[j]);
            let k = choose|k: int| is_stream_of(server, data, members, told[j], streams[j], k);
            assert(false);
        }
        let room = rooms[j - streams.len()];
        assert(list[j] == room);
        let k = choose|k: int|
            0 <= k < n && is_room(server, data, streams, ids[k], room) && room.1.channel_id == Some(
                #[trigger] ids[k],
            );
        assert(ids[k] == channel);
        lemma_room_lists(server, data, channel, people->Ok_0);
    }
}

/// What a server must tell for its targets to be known. What is missing is told, one thing after
/// another, and never taken for an empty server.
pub proof fn law_incomplete_servers_are_refused(server: ServerView, data: JsonView)
    ensures
        ({
            let known = forall|i: int|
                0 <= i < server.voice_channel_ids.len() ==> exists|j: int|
                    0 <= j < items_in(data, "channels"@).len() && member(
                        #[trigger] items_in(data, "channels"@)[j],
                        "id"@,
                    ) == JsonView::Text(#[trigger] server.voice_channel_ids[i]);
            &&& !(member(data, "members"@) is List) ==> guild_result(server, data) == Err::<
                Seq<TargetView>,
                DiscordError,
            >(DiscordError::MissingMembers)
            &&& member(data, "members"@) is List && !(member(data, "channels"@) is List)
                ==> guild_result(server, data) == Err::<Seq<TargetView>, DiscordError>(
                DiscordError::MissingChannels,
            )
            &&& member(data, "members"@) is List && member(data, "channels"@) is List && !known
                ==> guild_result(server, data) == Err::<Seq<TargetView>, DiscordError>(
                DiscordError::InaccessibleChannel,
            )
            &&& member(data, "members"@) is List && member(data, "channels"@) is List && known && !(
            member(data, "voice_states"@) is List) ==> guild_result(server, data) == Err::<
                Seq<TargetView>,
                DiscordError,
            >(DiscordError::MissingStates)
            &&& guild_result(server, data) is Ok ==> forall|i: int|
                0 <= i < items_in(data, "voice_states"@).len() ==> voice_in(
                    #[trigger] items_in(data, "voice_states"@)[i],
                ) is Some
        }),
{
    let ids = server.voice_channel_ids;
    let channels = items_in(data, "channels"@);
    assert forall|i: int| 0 <= i < ids.len() implies (first_where(
        channels,
        has_id(#[trigger] ids[i]),
    ) is Some <==> exists|j: int|
        0 <= j < channels.len() && member(#[trigger] channels[j], "id"@) == JsonView::Text(
            ids[i],
        )) by {
        let test = has_id(ids[i]);
        law_the_first_is_found(channels, test);
        if first_where(channels, test) is Some {
            let found = first_where(channels, test)->0;
            let j = choose|j: int|
                0 <= j < channels.len() && #[trigger] channels[j] == found && test(found)
                    && forall|m: int| 0 <= m < j ==> !test(#[trigger] channels[m]);
            assert(member(channels[j], "id"@) == JsonView::Text(ids[i]));
        } else {
            assert forall|j: int| 0 <= j < channels.len() implies member(
                #[trigger] channels[j],
                "id"@,
            ) != JsonView::Text(ids[i]) by {
                assert(!test(channels[j]));
            }
        }
    }
    if guild_result(server, data) is Ok {
        lemma_streams(
            server,
            data,
            items_in(data, "members"@),
            items_in(data, "voice_states"@),
        );
    }
}

/// A voice state tells the channel, the session and whether there is a stream, as they are
/// written in it. The session must be a text, the channel a text or null, and the stream, where
/// it is told, true or false.
pub proof fn law_voice_states_are_read_as_written(raw: JsonView)
    requires
        raw is Object,
    ensures
        ({
            let channel = member(raw, "channel_id"@);
            let session = member(raw, "session_id"@);
            let stream = member(raw, "self_stream"@);
            let good = (channel is Text || channel is Null) && session is Text && (has_member(
                raw,
                "self_stream"@,
            ) ==> stream is Bool);
            &&& voice_in(raw) is Some <==> good
            &&& voice_in(raw) matches Some(voice) ==> {
                &&& voice.context is None
                &&& channel is Null <==> voice.channel_id is None
                &&& channel is Text ==> channel == JsonView::Text(voice.channel_id->0)
                &&& session == JsonView::Text(voice.session_id)
                &&& voice.self_stream <==> stream == JsonView::Bool(true)
            }
        }),
{
    law_members_are_found(raw, "self_stream"@);
    if !has_member(raw, "self_stream"@) {
        assert forall|i: int| 0 <= i < raw->Object_0.len() implies (
        #[trigger] raw->Object_0[i]).0 != "self_stream"@ by {}
    }
}

/// A voice state may be written as a list too: the channel, the session and, where it is told,
/// whether there is a stream. Anything else is none.
pub proof fn law_voice_states_are_read_in_order(raw: JsonView)
    requires
        !(raw is Object),
    ensures
        ({
            let parts = raw->List_0;
            let told = parts.len() == 3;
            let good = raw is List && (told || parts.len() == 2) && (parts[0] is Text
                || parts[0] is Null) && parts[1] is Text && (told ==> parts[2] is Bool);
            &&& voice_in(raw) is Some <==> good
            &&& voice_in(raw) matches Some(voice) ==> {
                &&& voice.context is None
                &&& parts[0] is Null <==> voice.channel_id is None
                &&& parts[0] is Text ==> parts[0] == JsonView::Text(voice.channel_id->0)
                &&& parts[1] == JsonView::Text(voice.session_id)
                &&& voice.self_stream <==> told && parts[2] == JsonView::Bool(true)
            }
        }),
{
}

/// A person's voice state: a stream in one of their channels is found; a stream elsewhere and no
/// stream are none; only the answer that says the person is in no channel means the same, and
/// every other failure is told.
pub proof fn law_only_one_answer_ends_a_stream(
    channels: Seq<Seq<char>>,
    status: u16,
    body: JsonView,
)
    ensures
        ({
            let r = voice_result(channels, status, body);
            let ended = member(body, "code"@) == JsonView::Unsigned(10065);
            &&& status == 404 && ended ==> r == Ok::<Option<VoiceView>, DiscordError>(None)
            &&& status == 404 && !ended ==> r == Err::<Option<VoiceView>, DiscordError>(
                DiscordError::UnexpectedNotFound,
            )
            &&& status != 404 && !(200 <= status < 300) ==> r == Err::<
                Option<VoiceView>,
                DiscordError,
            >(DiscordError::Status(status))
            &&& 200 <= status < 300 ==> match voice_in(body) {
                None => r == Err::<Option<VoiceView>, DiscordError>(DiscordError::VoiceState),
                Some(voice) => if voice.self_stream && voice.channel_id is Some
                    && channels.contains(voice.channel_id->0) {
                    r == Ok::<Option<VoiceView>, DiscordError>(Some(voice))
                } else {
                    r == Ok::<Option<VoiceView>, DiscordError>(None)
                },
            }
        }),
{
}

/// A person is called by the name they have on the server, else by their global name, else by
/// the name of their account.
pub proof fn law_people_are_called_by_their_names(
    person: JsonView,
    fallback: Seq<char>,
    name: Seq<char>,
)
    ensures
        ({
            let user = member(person, "user"@);
            let nick = member(person, "nick"@);
            let global = member(user, "global_name"@);
            let account = member(user, "username"@);
            &&& nick == JsonView::Text(name) ==> shown_name(person, fallback) == name
            &&& !(nick is Text) && global == JsonView::Text(name) ==> shown_name(person, fallback)
                == name
            &&& !(nick is Text) && !(global is Text) && account == JsonView::Text(name)
                ==> shown_name(person, fallback) == name
            &&& !(nick is Text) && !(global is Text) && !(account is Text) ==> shown_name(
                person,
                fallback,
            ) == fallback
            &&& !(nick is Text) ==> shown_name(person, fallback) == global_name(user, fallback)
        }),
{
}

/// A stream is titled by the game that its person plays: the first among what their presence
/// lists, where it has a name.
pub proof fn law_streams_are_titled_by_the_game(
    data: JsonView,
    user: Seq<char>,
    p: int,
    g: int,
    name: Seq<char>,
)
    requires
        0 <= p < items_in(data, "presences"@).len(),
        member(member(items_in(data, "presences"@)[p], "user"@), "id"@) == JsonView::Text(user),
        forall|j: int|
            0 <= j < p ==> member(
                member(#[trigger] items_in(data, "presences"@)[j], "user"@),
                "id"@,
            ) != JsonView::Text(user),
        0 <= g < items_in(items_in(data, "presences"@)[p], "activities"@).len(),
        member(items_in(items_in(data, "presences"@)[p], "activities"@)[g], "type"@)
            == JsonView::Unsigned(0),
        forall|j: int|
            0 <= j < g ==> member(
                #[trigger] items_in(items_in(data, "presences"@)[p], "activities"@)[j],
                "type"@,
            ) != JsonView::Unsigned(0),
        member(items_in(items_in(data, "presences"@)[p], "activities"@)[g], "name"@)
            == JsonView::Text(name),
    ensures
        blank(cleaned(name, 150)) ==> played_title(data, user) is None,
        !blank(cleaned(name, 150)) ==> played_title(data, user) == Some(
            cleaned(name, 150) + "（Discordのプレイ中表示）"@,
        ),
{
    let presences = items_in(data, "presences"@);
    lemma_first_at(presences, of_user(user), p);
    let activities = items_in(presences[p], "activities"@);
    lemma_first_at(activities, is_game(), g);
}

proof fn lemma_first_at(items: Seq<JsonView>, test: spec_fn(JsonView) -> bool, i: int)
    requires
        0 <= i < items.len(),
        test(items[i]),
        forall|j: int| 0 <= j < i ==> !test(#[trigger] items[j]),
    ensures
        first_where(items, test) == Some(items[i]),
{
    law_the_first_is_found(items, test);
    let found = first_where(items, test)->0;
    let k = choose|k: int|
        0 <= k < items.len() && #[trigger] items[k] == found && test(found) && forall|j: int|
            0 <= j < k ==> !test(#[trigger] items[j]);
    if i < k {
        assert(!test(items[i]));
    } else if k < i {
        assert(!test(items[k]));
    }
}

/// Whether all that is needed of a voice state is there: it can be read, and its member is
/// known and has an ID.
pub open spec fn is_complete(guild: Seq<char>, members: Seq<JsonView>, state: JsonView) -> bool {
    &&& voice_in(state) is Some
    &&& member(state, "user_id"@) is Text
    &&& exists|k: int| #[trigger]
        is_member(members, member(state, "user_id"@)->Text_0, k) && member_result(
            members[k],
            guild,
        ) is Ok
}

proof fn lemma_complete_person(guild: Seq<char>, members: Seq<JsonView>, state: JsonView)
    requires
        is_complete(guild, members, state),
    ensures
        person_of(members, state) is Ok,
        person_of(members, state)->Ok_0 matches Some((id, person)) ==> member_result(
            person,
            guild,
        ) is Ok,
{
    let id = member(state, "user_id"@)->Text_0;
    lemma_last_member(members, id);
    let k = choose|k: int| #[trigger]
        is_member(members, id, k) && member_result(members[k], guild) is Ok;
    assert(is_member(members, id, k));
}

proof fn lemma_complete(
    server: ServerView,
    data: JsonView,
    members: Seq<JsonView>,
    states: Seq<JsonView>,
    channel: Seq<char>,
)
    requires
        forall|i: int|
            0 <= i < states.len() ==> is_complete(server.guild_id, members, #[trigger] states[i]),
    ensures
        streams_of(server, data, members, states) is Ok,
        occupants_of(server.guild_id, members, states, channel) is Ok,
    decreases states.len(),
{
    if states.len() > 0 {
        let front = states.drop_last();
        assert forall|i: int| 0 <= i < front.len() implies is_complete(
            server.guild_id,
            members,
            #[trigger] front[i],
        ) by {
            assert(front[i] == states[i]);
        }
        lemma_complete(server, data, members, front, channel);
        assert(is_complete(server.guild_id, members, states[states.len() - 1]));
        lemma_complete_person(server.guild_id, members, states.last());
    }
}

proof fn lemma_complete_rooms(
    server: ServerView,
    data: JsonView,
    streams: Seq<TargetView>,
    n: int,
)
    requires
        0 <= n <= server.voice_channel_ids.len(),
        forall|channel: Seq<char>| #[trigger]
            occupants_of(
                server.guild_id,
                items_in(data, "members"@),
                items_in(data, "voice_states"@),
                channel,
            ) is Ok,
    ensures
        rooms_of(server, data, streams, n) is Ok,
    decreases n,
{
    if n > 0 {
        lemma_complete_rooms(server, data, streams, n - 1);
        let people = occupants_of(
            server.guild_id,
            items_in(data, "members"@),
            items_in(data, "voice_states"@),
            server.voice_channel_ids[n - 1],
        );
        assert(people is Ok);
    }
}

/// A server of which everything is told is never refused.
pub proof fn law_complete_servers_are_read(server: ServerView, data: JsonView)
    requires
        member(data, "members"@) is List,
        member(data, "channels"@) is List,
        member(data, "voice_states"@) is List,
        forall|i: int|
            0 <= i < server.voice_channel_ids.len() ==> exists|j: int|
                0 <= j < items_in(data, "channels"@).len() && member(
                    #[trigger] items_in(data, "channels"@)[j],
                    "id"@,
                ) == JsonView::Text(#[trigger] server.voice_channel_ids[i]),
        forall|i: int|
            0 <= i < items_in(data, "voice_states"@).len() ==> is_complete(
                server.guild_id,
                items_in(data, "members"@),
                #[trigger] items_in(data, "voice_states"@)[i],
            ),
    ensures
        guild_result(server, data) is Ok,
{
    let ids = server.voice_channel_ids;
    let channels = items_in(data, "channels"@);
    let members = items_in(data, "members"@);
    let states = items_in(data, "voice_states"@);
    assert forall|i: int| 0 <= i < ids.len() implies first_where(
        channels,
        has_id(#[trigger] ids[i]),
    ) is Some by {
        let test = has_id(ids[i]);
        law_the_first_is_found(channels, test);
        let j = choose|j: int|
            0 <= j < channels.len() && member(#[trigger] channels[j], "id"@) == JsonView::Text(
                ids[i],
            );
        assert(test(channels[j]));
    }
    assert(all_known(channels, ids));
    lemma_complete(server, data, members, states, Seq::empty());
    assert forall|channel: Seq<char>| #[trigger]
        occupants_of(server.guild_id, members, states, channel) is Ok by {
        lemma_complete(server, data, members, states, channel);
    }
    let streams = streams_of(server, data, members, states)->Ok_0;
    lemma_complete_rooms(server, data, streams, ids.len() as int);
}

} // verus!
