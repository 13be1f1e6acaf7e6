//! How the servers are listened to until each of them has said who is there.
use vstd::prelude::*;
use vstd::string::*;

use crate::activity::{first_where, has_id};
use crate::config::ServerView;
use crate::discord::{guild_result, DiscordError};
use crate::gateway::{
    beat_json, counted, fresh, gateway_result, guild_step, identify_json, intents_of, server_with,
    step, ticked, SnapshotView, StepView,
};
use crate::json::{first_member, member, JsonView};
use crate::laws::reading::law_the_first_is_found;
use crate::url::UrlView;

verus! {

/// The gateway that is listened to is the one that the service names, on the service's own
/// host, and only while sessions may still be begun.
pub proof fn law_only_the_gateway_is_listened_to(
    body: JsonView,
    text: Seq<char>,
    url: UrlView,
    left: u64,
)
    requires
        member(body, "url"@) == JsonView::Text(text),
        member(member(body, "session_start_limit"@), "remaining"@) == JsonView::Unsigned(left),
    ensures
        gateway_result(body, Some(url)) is Ok <==> left > 0 && url.scheme == "wss"@ && url.host
            == Some("gateway.discord.gg"@) && url.username.len() == 0 && url.password is None,
        gateway_result(body, Some(url)) is Ok ==> gateway_result(body, Some(url))->Ok_0 == text
            + "/?v=10&encoding=json"@,
        left == 0 ==> gateway_result(body, Some(url)) == Err::<Seq<char>, DiscordError>(
            DiscordError::Budget,
        ),
        left > 0 ==> gateway_result(body, None) == Err::<Seq<char>, DiscordError>(
            DiscordError::GatewayUrl,
        ),
        left > 0 && gateway_result(body, Some(url)) is Err ==> gateway_result(body, Some(url))
            == Err::<Seq<char>, DiscordError>(DiscordError::GatewayHost),
{
}

/// Without a number of sessions that are left, or without an address, there is no gateway.
pub proof fn law_a_gateway_is_named_and_open(body: JsonView, url: Option<UrlView>)
    ensures
        !(member(member(body, "session_start_limit"@), "remaining"@) is Unsigned)
            ==> gateway_result(body, url) == Err::<Seq<char>, DiscordError>(DiscordError::Budget),
        !(member(body, "url"@) is Text) ==> gateway_result(body, url) is Err,
{
}

/// What people play is listened for where a server wants it, and only there: their voice states
/// always are.
pub proof fn law_activities_are_listened_for_where_wanted(servers: Seq<ServerView>, i: int)
    ensures
        0 <= i < servers.len() && servers[i].use_activity ==> intents_of(servers) == 1 + 128
            + 256,
        (forall|j: int| 0 <= j < servers.len() ==> !(#[trigger] servers[j]).use_activity)
            ==> intents_of(servers) == 1 + 128,
{
}

/// Who listens says so with the token, what is listened for, and on what system.
pub proof fn law_listeners_say_who_they_are(token: Seq<char>, intents: u64, os: Seq<char>)
    ensures
        ({
            let message = identify_json(token, intents, os);
            let data = member(message, "d"@);
            let properties = member(data, "properties"@);
            &&& member(message, "op"@) == JsonView::Unsigned(2)
            &&& member(data, "token"@) == JsonView::Text(token)
            &&& member(data, "intents"@) == JsonView::Unsigned(intents)
            &&& member(properties, "os"@) == JsonView::Text(os)
            &&& member(properties, "browser"@) == JsonView::Text("sirucord"@)
            &&& member(properties, "device"@) == JsonView::Text("sirucord"@)
        }),
{
    reveal_strlit("op");
    reveal_strlit("d");
    reveal_strlit("token");
    reveal_strlit("intents");
    reveal_strlit("properties");
    reveal_strlit("os");
    reveal_strlit("browser");
    reveal_strlit("device");
    assert("op"@[0] != "d"@[0]);
    assert("token"@[0] != "intents"@[0]);
    assert("token"@[0] != "properties"@[0]);
    assert("intents"@[0] != "properties"@[0]);
    assert("os"@[0] != "browser"@[0]);
    assert("os"@[0] != "device"@[0]);
    assert("browser"@[0] != "device"@[0]);
    reveal_with_fuel(first_member, 4);
    let message = identify_json(token, intents, os);
    let all = message->Object_0;
    assert(all.drop_first()[0] == all[1]);
    let data = all[1].1->Object_0;
    assert(data.drop_first()[0] == data[1]);
    assert(data.drop_first().drop_first()[0] == data[2]);
    let properties = data[2].1->Object_0;
    assert(properties.drop_first()[0] == properties[1]);
    assert(properties.drop_first().drop_first()[0] == properties[2]);
}

/// A heartbeat tells the number of the last event.
pub proof fn law_heartbeats_tell_the_last_event(sequence: JsonView, event: JsonView)
    ensures
        member(beat_json(sequence), "op"@) == JsonView::Unsigned(1),
        member(beat_json(sequence), "d"@) == sequence,
        member(event, "s"@) is Null ==> counted(sequence, event) == sequence,
        !(member(event, "s"@) is Null) ==> counted(sequence, event) == member(event, "s"@),
{
    reveal_strlit("op");
    reveal_strlit("d");
    assert("op"@[0] != "d"@[0]);
    reveal_with_fuel(first_member, 3);
    let all = beat_json(sequence)->Object_0;
    assert(all.drop_first()[0] == all[1]);
}

/// Whether nothing is different but the number of the last event, which is that of this event
/// if it has one.
pub open spec fn only_counts(before: SnapshotView, next: SnapshotView, event: JsonView) -> bool {
    &&& next.awaiting == before.awaiting
    &&& next.found == before.found
    &&& next.sequence == (if member(event, "s"@) is Null {
        before.sequence
    } else {
        member(event, "s"@)
    })
}

/// The service is answered as it asks: greeted with an interval, with who listens; asked for a
/// heartbeat, with the number of the last event; told that one arrived, by waiting; told to
/// come again, by giving up.
pub proof fn law_the_service_is_answered(
    before: SnapshotView,
    servers: Seq<ServerView>,
    identify: JsonView,
    event: JsonView,
    op: u64,
)
    requires
        member(event, "op"@) == JsonView::Unsigned(op),
        op != 0,
    ensures
        ({
            let interval = member(member(event, "d"@), "heartbeat_interval"@);
            match step(before, servers, identify, event) {
                Ok((next, done)) => {
                    &&& only_counts(before, next, event)
                    &&& op != 7
                    &&& op != 9
                    &&& next.acknowledged == (before.acknowledged || op == 11)
                    &&& match done {
                        StepView::Begin(ms, message) => op == 10 && interval == JsonView::Unsigned(
                            ms,
                        ) && ms > 0 && message == identify,
                        StepView::Send(message) => op == 1 && message == beat_json(next.sequence),
                        StepView::Wait => op != 10 && op != 1,
                        StepView::Finish => false,
                    }
                },
                Err(e) => {
                    ||| (op == 7 || op == 9) && e == DiscordError::Reconnect
                    ||| op == 10 && interval == JsonView::Unsigned(0) && e
                        == DiscordError::InvalidInterval
                    ||| op == 10 && !(interval is Unsigned) && e == DiscordError::MissingInterval
                },
            }
        }),
{
}

/// What a server says is heard where it is waited for: who is there is found, the server is not
/// waited for any more, and with the last of them all is known.
pub proof fn law_every_server_is_heard(
    before: SnapshotView,
    servers: Seq<ServerView>,
    identify: JsonView,
    event: JsonView,
    id: Seq<char>,
)
    requires
        member(event, "op"@) == JsonView::Unsigned(0),
        member(event, "t"@) == JsonView::Text("GUILD_CREATE"@),
        member(member(event, "d"@), "id"@) == JsonView::Text(id),
        member(member(event, "d"@), "unavailable"@) != JsonView::Bool(true),
        server_with(servers, id) is Some,
        guild_result(server_with(servers, id)->0, member(event, "d"@)) is Ok,
    ensures
        step(before, servers, identify, event) matches Ok((next, done)) && {
            &&& next.awaiting == before.awaiting.remove(id)
            &&& next.found == before.found + guild_result(
                server_with(servers, id)->0,
                member(event, "d"@),
            )->Ok_0
            &&& next.acknowledged == before.acknowledged
            &&& (forall|other: Seq<char>| #[trigger] before.awaiting.contains(other) ==> other == id)
                ==> done == StepView::Finish
            &&& forall|other: Seq<char>| #[trigger]
                before.awaiting.contains(other) && other != id ==> done == StepView::Wait
        },
{
    reveal_strlit("READY");
    reveal_strlit("GUILD_CREATE");
    assert("READY"@[0] != "GUILD_CREATE"@[0]);
    let rest = before.awaiting.remove(id);
    if forall|other: Seq<char>| #[trigger] before.awaiting.contains(other) ==> other == id {
        assert(rest =~= Set::<Seq<char>>::empty());
    }
    assert forall|other: Seq<char>| #[trigger]
        before.awaiting.contains(other) && other != id implies rest != Set::<
        Seq<char>,
    >::empty() by {
        assert(rest.contains(other));
    }
}

/// A server that cannot be heard, or says what makes no sense, ends the listening; one that is
/// not configured is passed over.
pub proof fn law_silent_servers_end_the_listening(
    s: SnapshotView,
    servers: Seq<ServerView>,
    data: JsonView,
    id: Seq<char>,
)
    ensures
        !(member(data, "id"@) is Text) ==> guild_step(s, servers, data) == Err::<
            (SnapshotView, StepView),
            DiscordError,
        >(DiscordError::MissingGuildId),
        member(data, "id"@) == JsonView::Text(id) && server_with(servers, id) is None
            ==> guild_step(s, servers, data) == Ok::<(SnapshotView, StepView), DiscordError>(
            (s, StepView::Wait),
        ),
        member(data, "id"@) == JsonView::Text(id) && server_with(servers, id) is Some && member(
            data,
            "unavailable"@,
        ) == JsonView::Bool(true) ==> guild_step(s, servers, data) == Err::<
            (SnapshotView, StepView),
            DiscordError,
        >(DiscordError::Unavailable),
        member(data, "id"@) == JsonView::Text(id) && server_with(servers, id) is Some && member(
            data,
            "unavailable"@,
        ) != JsonView::Bool(true) && guild_result(server_with(servers, id)->0, data) is Err ==> guild_step(s, servers, data) == Err::<(SnapshotView, StepView), DiscordError>(
            guild_result(server_with(servers, id)->0, data)->Err_0,
        ),
{
}

/// Whether a server is among those that a list names.
pub open spec fn is_named(guilds: Seq<JsonView>, id: Seq<char>) -> bool {
    exists|i: int|
        0 <= i < guilds.len() && member(#[trigger] guilds[i], "id"@) == JsonView::Text(id)
}

/// Listening begins only where every server that is waited for is one that the bot belongs to.
pub proof fn law_only_servers_of_the_bot_are_waited_for(
    before: SnapshotView,
    servers: Seq<ServerView>,
    identify: JsonView,
    event: JsonView,
    guilds: Seq<JsonView>,
)
    requires
        member(event, "op"@) == JsonView::Unsigned(0),
        member(event, "t"@) == JsonView::Text("READY"@),
        member(member(event, "d"@), "guilds"@) == JsonView::List(guilds),
    ensures
        match step(before, servers, identify, event) {
            Ok((next, done)) => {
                &&& only_counts(before, next, event)
                &&& next.acknowledged == before.acknowledged
                &&& done == StepView::Wait
                &&& forall|id: Seq<char>| #[trigger]
                    before.awaiting.contains(id) ==> is_named(guilds, id)
            },
            Err(e) => {
                &&& e == DiscordError::NotMember
                &&& exists|id: Seq<char>| #[trigger]
                    before.awaiting.contains(id) && !is_named(guilds, id)
            },
        },
{
    assert forall|id: Seq<char>| (#[trigger] first_where(
        guilds,
        has_id(id),
    ) is Some <==> is_named(guilds, id)) by {
        lemma_is_named(guilds, id);
    }
}

proof fn lemma_is_named(guilds: Seq<JsonView>, id: Seq<char>)
    ensures
        first_where(guilds, has_id(id)) is Some <==> is_named(
            guilds,
            id,
        ),
{
    law_the_first_is_found(guilds, has_id(id));
}

/// A listener waits for every configured server and has found nothing yet; nothing happened
/// that a heartbeat could tell.
pub proof fn law_listening_begins_with_every_server(servers: Seq<ServerView>, id: Seq<char>)
    ensures
        fresh(servers).awaiting.contains(id) <==> exists|i: int|
            0 <= i < servers.len() && (#[trigger] servers[i]).guild_id == id,
        fresh(servers).found.len() == 0,
        fresh(servers).sequence == JsonView::Null,
        fresh(servers).acknowledged,
{
    let ids = servers.map_values(|s: ServerView| s.guild_id);
    if fresh(servers).awaiting.contains(id) {
        let i = choose|i: int| 0 <= i < ids.len() && ids[i] == id;
        assert(servers[i].guild_id == id);
    }
    if exists|i: int| 0 <= i < servers.len() && (#[trigger] servers[i]).guild_id == id {
        let i = choose|i: int| 0 <= i < servers.len() && (#[trigger] servers[i]).guild_id == id;
        assert(ids[i] == id);
    }
}

/// A server is known by its id: the first that is configured with it.
pub proof fn law_servers_are_known_by_their_ids(servers: Seq<ServerView>, i: int, id: Seq<char>)
    ensures
        0 <= i < servers.len() && servers[i].guild_id == id && (forall|j: int|
            0 <= j < i ==> (#[trigger] servers[j]).guild_id != id) ==> server_with(servers, id)
            == Some(servers[i]),
        (forall|j: int| 0 <= j < servers.len() ==> (#[trigger] servers[j]).guild_id != id)
            ==> server_with(servers, id) is None,
    decreases servers.len(),
{
    if servers.len() > 0 {
        let rest = servers.drop_first();
        law_servers_are_known_by_their_ids(rest, i - 1, id);
        assert forall|j: int| 0 <= j < rest.len() implies #[trigger] rest[j] == servers[j + 1] by {}
    }
}

/// A heartbeat is sent only where the last one was answered, tells the last event, and waits to
/// be answered; nothing else changes.
pub proof fn law_every_heartbeat_is_answered(s: SnapshotView)
    ensures
        match ticked(s) {
            Ok((next, message)) => {
                &&& s.acknowledged
                &&& !next.acknowledged
                &&& ticked(next) == Err::<(SnapshotView, JsonView), DiscordError>(
                    DiscordError::Heartbeat,
                )
                &&& next.awaiting == s.awaiting
                &&& next.found == s.found
                &&& next.sequence == s.sequence
                &&& message == beat_json(s.sequence)
            },
            Err(e) => !s.acknowledged && e == DiscordError::Heartbeat,
        },
{
}

} // verus!
