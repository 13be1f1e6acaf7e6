//! What a run looks at before it does anything, and how it counts what it saw.
use vstd::prelude::*;
use vstd::string::*;

use crate::activity::first_artwork;
use crate::config::{ServerView, StreamerView};
use crate::discord::{voice_result, TargetView, VoiceView};
use crate::engine::{EngineError, Entry, EntryView, PendingView, State};
use crate::gateway::server_with;
use crate::json::JsonView;
use crate::laws::delivering::{same_announcement, same_but_pending};
use crate::number::decimal;
use crate::survey::{
    go_on, survey_step, unbegun, Reading, ReplyView, RunError, SurveyView, SurveyedView,
};
use crate::table::{precedes, Row};
use crate::targets::{
    extended, found, gathers, is_described, is_detailed, is_illustrated, is_occupied, is_pending,
    listed, metadata_of, reopened, streams, summary_of, tallies, unresolved_in, Tally,
};
use crate::text::{find, halves, lemma_find};
use crate::visit::{Observed, ObservedView};

verus! {

/// What a target is called: the server and the person, with a colon between them.
pub open spec fn called(t: ObservedView) -> Seq<char> {
    t.streamer.guild_id + seq![':'] + t.streamer.user_id
}

/// Everything that was seen is in the table, under the name of its server and its person; what
/// was seen twice is there as it was seen last, and nothing else is there.
pub proof fn law_everything_seen_is_listed(list: Seq<ObservedView>, i: int)
    requires
        0 <= i < list.len(),
    ensures
        listed(list).dom().contains(called(list[i])),
        (forall|j: int| i < j < list.len() ==> called(#[trigger] list[j]) != called(list[i]))
            ==> listed(list)[called(list[i])] == list[i],
    decreases list.len(),
{
    let front = list.drop_last();
    if i < front.len() {
        law_everything_seen_is_listed(front, i);
        assert(front[i] == list[i]);
        if forall|j: int| i < j < list.len() ==> called(#[trigger] list[j]) != called(list[i]) {
            assert(called(list[list.len() - 1]) != called(list[i]));
            assert forall|j: int| i < j < front.len() implies called(#[trigger] front[j])
                != called(front[i]) by {
                assert(front[j] == list[j]);
            }
        }
    }
}

/// Whether this is the name of something that was seen.
pub open spec fn names_one(list: Seq<ObservedView>, name: Seq<char>) -> bool {
    exists|i: int| 0 <= i < list.len() && called(#[trigger] list[i]) == name
}

pub proof fn law_only_what_was_seen_is_listed(list: Seq<ObservedView>, name: Seq<char>)
    ensures
        listed(list).dom().contains(name) ==> names_one(list, name),
    decreases list.len(),
{
    if list.len() > 0 && listed(list).dom().contains(name) {
        let front = list.drop_last();
        if listed(front).dom().contains(name) {
            law_only_what_was_seen_is_listed(front, name);
            let i = choose|i: int| 0 <= i < front.len() && called(#[trigger] front[i]) == name;
            assert(list[i] == front[i]);
            assert(called(list[i]) == name);
        } else {
            assert(called(list[list.len() - 1]) == name);
        }
    }
}

/// Who was found on a server is seen as it was found.
pub proof fn law_found_targets_are_seen(streamer: StreamerView, voice: VoiceView)
    ensures
        found((streamer, voice)).streamer == streamer,
        found((streamer, voice)).voice == Some(voice),
{
}

/// A target that is remembered and was not seen is looked at as one that is not there: it is
/// known by its server, whose rules hold for it.
pub proof fn law_forgotten_targets_follow_their_server(
    seen: Map<Seq<char>, ObservedView>,
    servers: Seq<ServerView>,
    names: Set<Seq<char>>,
    guild: Seq<char>,
    user: Seq<char>,
)
    requires
        !guild.contains(':'),
        !"share-"@.is_prefix_of(user),
        !seen.dom().contains(guild + seq![':'] + user),
        names.contains(guild + seq![':'] + user),
        server_with(servers, guild) is Some,
    ensures
        ({
            let name = guild + seq![':'] + user;
            let all = extended(seen, servers, names);
            let server = server_with(servers, guild)->0;
            &&& all.dom().contains(name)
            &&& all[name].voice is None
            &&& all[name].streamer.guild_id == guild
            &&& all[name].streamer.user_id == user
            &&& all[name].streamer.display_name == "Discord配信者"@
            &&& all[name].streamer.voice_channel_ids == server.voice_channel_ids
            &&& all[name].streamer.default_title == server.default_title
            &&& all[name].streamer.announcement_channel_id == server.announcement_channel_id
            &&& all[name].streamer.screenshots == server.screenshots
        }),
{
    let name = guild + seq![':'] + user;
    lemma_named(guild, user);
    let start = "share-"@;
    if start.len() <= user.len() {
        assert(user.take(start.len() as int) == user.subrange(0, start.len() as int));
    }
}

proof fn lemma_named(guild: Seq<char>, user: Seq<char>)
    requires
        !guild.contains(':'),
    ensures
        halves(guild + seq![':'] + user, ':') == Some((guild, user)),
{
    let name = guild + seq![':'] + user;
    lemma_find(name, ':');
    let n = find(name, ':') as int;
    assert(name[guild.len() as int] == ':');
    if n < guild.len() {
        assert(name[n] == guild[n]);
        assert(guild.contains(guild[n]));
    }
    assert(n == guild.len());
    assert(name.take(n) == guild);
    assert(name.skip(n + 1) == user);
}

/// What was seen stays as it was seen, whatever is remembered; and nothing is looked at that
/// was neither seen nor remembered.
pub proof fn law_what_was_seen_stays(
    seen: Map<Seq<char>, ObservedView>,
    servers: Seq<ServerView>,
    names: Set<Seq<char>>,
    name: Seq<char>,
)
    ensures
        seen.dom().contains(name) ==> extended(seen, servers, names).dom().contains(name)
            && extended(seen, servers, names)[name] == seen[name],
        !seen.dom().contains(name) && !names.contains(name) ==> !extended(
            seen,
            servers,
            names,
        ).dom().contains(name),
{
}

/// A target is live where somebody streams, and occupied where somebody is in a call that
/// nobody streams; a stream is described where something is known of it, detailed where it is
/// known what is played, and illustrated where there is a picture of that.
pub proof fn law_targets_are_counted_by_what_goes_on(row: Row<Observed>)
    ensures
        ({
            let voice = row.value@.voice;
            match voice {
                None => {
                    &&& !streams()(row)
                    &&& !gathers()(row)
                    &&& !is_described()(row)
                    &&& !is_detailed()(row)
                    &&& !is_illustrated()(row)
                },
                Some(v) => {
                    let known = v.self_stream && v.context is Some;
                    &&& streams()(row) == v.self_stream
                    &&& gathers()(row) == !v.self_stream
                    &&& is_described()(row) == known
                    &&& is_detailed()(row) == (known && v.context->0.activities.len() > 0)
                    &&& is_illustrated()(row) == (known && first_artwork(
                        v.context->0.activities,
                    ) is Some)
                },
            }
        }),
{
}

/// A server is occupied where somebody on it was seen in a call.
pub proof fn law_servers_with_a_call_are_occupied(
    seen: Map<Seq<char>, ObservedView>,
    guild: Seq<char>,
    name: Seq<char>,
)
    ensures
        seen.dom().contains(name) && seen[name].voice is Some && seen[name].streamer.guild_id
            == guild ==> is_occupied(seen, guild),
        (forall|n: Seq<char>| #[trigger]
            seen.dom().contains(n) && seen[n].voice is Some ==> seen[n].streamer.guild_id != guild)
            ==> !is_occupied(seen, guild),
{
}

/// Every announcement that is pending is listed, under the target that it is about, with when
/// it was attempted and the key that it was attempted under.
pub proof fn law_every_pending_announcement_is_listed(rows: Seq<Row<Entry>>, i: int)
    requires
        0 <= i < rows.len(),
        rows[i].value@.pending is Some,
    ensures
        ({
            let told = unresolved_in(rows);
            let before = rows.take(i).filter(|r: Row<Entry>| r.value@.pending is Some).len() as int;
            &&& told.len() == rows.filter(|r: Row<Entry>| r.value@.pending is Some).len()
            &&& before < told.len()
            &&& told[before].target == rows[i].key@
            &&& told[before].attempted_at == rows[i].value@.pending->0.attempted_at
            &&& told[before].key == rows[i].value@.pending->0.key
        }),
    decreases rows.len(),
{
    reveal(Seq::filter);
    let front = rows.drop_last();
    lemma_unresolved_count(front);
    lemma_unresolved_count(rows);
    if i < front.len() {
        law_every_pending_announcement_is_listed(front, i);
        assert(front[i] == rows[i]);
        assert(front.take(i) == rows.take(i));
    } else {
        assert(rows.take(i) == front);
    }
}

proof fn lemma_unresolved_count(rows: Seq<Row<Entry>>)
    ensures
        unresolved_in(rows).len() == rows.filter(|r: Row<Entry>| r.value@.pending is Some).len(),
    decreases rows.len(),
{
    reveal(Seq::filter);
    if rows.len() > 0 {
        lemma_unresolved_count(rows.drop_last());
    }
}

/// A retried announcement is the same announcement under a new key, with nothing attempted.
pub proof fn law_a_retry_keeps_the_announcement(e: EntryView, key: Seq<char>)
    requires
        e.pending is Some,
    ensures
        ({
            let next = reopened(e, key);
            &&& next.pending matches Some(p) && {
                &&& p.key == key
                &&& p.attempted_at is None
                &&& same_announcement(
                    PendingView { key: e.pending->0.key, ..p },
                    e.pending->0,
                )
            }
            &&& same_but_pending(next, e)
        }),
{
}

/// A run reads the state, then the account, then the servers if there are any, then each
/// configured person; what it read is what it goes by.
pub proof fn law_everything_is_read_in_turn(
    s: SurveyView,
    servers: Seq<ServerView>,
    streamers: Seq<StreamerView>,
    reply: ReplyView,
)
    ensures
        unbegun(s.state).reading == Reading::State,
        unbegun(s.state).discovered.len() == 0,
        unbegun(s.state).individuals.len() == 0,
        s.reading == Reading::State && reply is State ==> survey_step(
            s,
            servers,
            streamers,
            reply,
        ) == Ok::<SurveyedView, RunError>(
            SurveyedView::Ask(
                SurveyView {
                    state: reply->State_0,
                    discovered: s.discovered,
                    individuals: s.individuals,
                    reading: Reading::Account,
                },
            ),
        ),
        s.reading == Reading::Account && reply is Answer && !(200 <= reply->Answer_0 <= 299)
            ==> survey_step(s, servers, streamers, reply) == Err::<SurveyedView, RunError>(
            RunError::Account(reply->Answer_0),
        ),
        s.reading == Reading::Account && reply is Answer && 200 <= reply->Answer_0 <= 299
            && servers.len() > 0 ==> survey_step(s, servers, streamers, reply) == Ok::<
            SurveyedView,
            RunError,
        >(
            SurveyedView::Ask(
                SurveyView {
                    state: s.state,
                    discovered: s.discovered,
                    individuals: s.individuals,
                    reading: Reading::Servers,
                },
            ),
        ),
        s.reading == Reading::Account && reply is Answer && 200 <= reply->Answer_0 <= 299
            && servers.len() == 0 ==> survey_step(s, servers, streamers, reply) == go_on(
            s,
            servers,
            streamers,
        ),
        s.reading == Reading::Servers && reply is Targets ==> survey_step(
            s,
            servers,
            streamers,
            reply,
        ) == go_on(
            SurveyView {
                state: s.state,
                discovered: reply->Targets_0,
                individuals: s.individuals,
                reading: s.reading,
            },
            servers,
            streamers,
        ),
{
}

/// Each configured person is seen as the service says, under their own rules.
pub proof fn law_configured_people_are_seen(
    s: SurveyView,
    servers: Seq<ServerView>,
    streamers: Seq<StreamerView>,
    i: usize,
    status: u16,
    body: JsonView,
)
    requires
        s.reading == Reading::Person(i),
        i < streamers.len(),
    ensures
        ({
            let next = survey_step(s, servers, streamers, ReplyView::Answer(status, body));
            match voice_result(streamers[i as int].voice_channel_ids, status, body) {
                Ok(voice) => next == go_on(
                    SurveyView {
                        state: s.state,
                        discovered: s.discovered,
                        individuals: s.individuals.push(
                            ObservedView { streamer: streamers[i as int], voice },
                        ),
                        reading: s.reading,
                    },
                    servers,
                    streamers,
                ),
                Err(e) => next == Err::<SurveyedView, RunError>(RunError::Discord(e)),
            }
        }),
{
}

/// The next configured person is read while one is left; a run is ready with all that was seen
/// on the servers and of the configured people, and what is remembered beside it.
pub proof fn law_a_survey_ends_with_all_that_was_seen(
    s: SurveyView,
    servers: Seq<ServerView>,
    streamers: Seq<StreamerView>,
)
    requires
        streamers.len() <= usize::MAX,
    ensures
        s.individuals.len() < streamers.len() ==> go_on(s, servers, streamers) == Ok::<
            SurveyedView,
            RunError,
        >(
            SurveyedView::Ask(
                SurveyView {
                    state: s.state,
                    discovered: s.discovered,
                    individuals: s.individuals,
                    reading: Reading::Person(s.individuals.len() as usize),
                },
            ),
        ),
        s.individuals.len() >= streamers.len() ==> match go_on(s, servers, streamers) {
            Ok(SurveyedView::Ready(state, table)) => {
                &&& state == s.state
                &&& forall|i: int|
                    0 <= i < s.discovered.len() ==> table.dom().contains(
                        called(found(#[trigger] s.discovered[i])),
                    )
                &&& forall|i: int|
                    0 <= i < s.individuals.len() ==> table.dom().contains(
                        called(#[trigger] s.individuals[i]),
                    )
                &&& forall|n: Seq<char>| #[trigger]
                    state.entries().dom().contains(n) && !n.contains(':') ==> table.dom().contains(
                        n,
                    )
            },
            Err(e) => e == RunError::Engine(EngineError::MalformedTarget),
            _ => false,
        },
{
    let list = s.discovered.map_values(|t: TargetView| found(t)) + s.individuals;
    assert forall|i: int| 0 <= i < s.discovered.len() implies listed(list).dom().contains(
        called(found(#[trigger] s.discovered[i])),
    ) by {
        assert(list[i] == found(s.discovered[i]));
        law_everything_seen_is_listed(list, i);
    }
    assert forall|i: int| 0 <= i < s.individuals.len() implies listed(list).dom().contains(
        called(#[trigger] s.individuals[i]),
    ) by {
        assert(list[s.discovered.len() + i] == s.individuals[i]);
        law_everything_seen_is_listed(list, s.discovered.len() + i);
    }
    assert forall|n: Seq<char>| !n.contains(':') implies #[trigger] halves(n, ':') is None by {
        lemma_find(n, ':');
    }
}

/// Names are ordered by the first character in which they differ; a name comes before those
/// that it begins.
pub proof fn law_names_are_in_order(
    same: Seq<char>,
    a: char,
    b: char,
    rest: Seq<char>,
    other: Seq<char>,
)
    ensures
        (a as u32) < (b as u32) ==> precedes(same + seq![a] + rest, same + seq![b] + other),
        precedes(same, same + seq![a] + rest),
        !precedes(same, same),
    decreases same.len(),
{
    if same.len() == 0 {
        assert((same + seq![a] + rest)[0] == a);
        assert((same + seq![b] + other)[0] == b);
    } else {
        let less = same.drop_first();
        law_names_are_in_order(less, a, b, rest, other);
        assert((same + seq![a] + rest).drop_first() == less + seq![a] + rest);
        assert((same + seq![b] + other).drop_first() == less + seq![b] + other);
        assert((same + seq![a] + rest)[0] == same[0]);
        assert((same + seq![b] + other)[0] == same[0]);
    }
}

/// Each target is counted once, as what goes on there: one more target changes each number by
/// one or not at all.
pub proof fn law_each_target_is_counted_once(
    t: Tally,
    u: Tally,
    rows: Seq<Row<Observed>>,
    row: Row<Observed>,
)
    requires
        tallies(t, rows),
        tallies(u, rows.push(row)),
    ensures
        u.targets == t.targets + 1,
        match row.value@.voice {
            None => u.live == t.live && u.occupied == t.occupied && u.described == t.described
                && u.detailed == t.detailed && u.illustrated == t.illustrated,
            Some(v) => if !v.self_stream {
                u.live == t.live && u.occupied == t.occupied + 1 && u.described == t.described
                    && u.detailed == t.detailed && u.illustrated == t.illustrated
            } else {
                &&& u.live == t.live + 1
                &&& u.occupied == t.occupied
                &&& u.described == t.described + (if v.context is Some {
                    1int
                } else {
                    0
                })
                &&& u.detailed == t.detailed + (if v.context is Some
                    && v.context->0.activities.len() > 0 {
                    1int
                } else {
                    0
                })
                &&& u.illustrated == t.illustrated + (if v.context is Some && first_artwork(
                    v.context->0.activities,
                ) is Some {
                    1int
                } else {
                    0
                })
            },
        },
{
    reveal(Seq::filter);
    assert(rows.push(row).drop_last() == rows);
}

/// Where there are no targets, nothing is counted.
pub proof fn law_nothing_is_counted_of_nothing(t: Tally)
    requires
        tallies(t, Seq::empty()),
    ensures
        t.targets == 0,
        t.live == 0,
        t.occupied == 0,
        t.described == 0,
        t.detailed == 0,
        t.illustrated == 0,
{
    reveal(Seq::filter);
}

/// A log tells the numbers, and of the streams that something is known of where there is one.
pub proof fn law_logs_tell_the_numbers(t: Tally)
    ensures
        summary_of(t) == "Checked "@ + decimal(t.targets as nat) + " target(s); "@ + decimal(
            t.live as nat,
        ) + " live stream(s); "@ + decimal(t.occupied as nat)
            + " occupied channel(s) without streams."@,
        metadata_of(t) is Some <==> t.described > 0,
        t.described > 0 ==> metadata_of(t)->0 == "Automatic metadata: "@ + decimal(
            t.detailed as nat,
        ) + " stream(s) with activity details; "@ + decimal(t.illustrated as nat)
            + " with artwork."@,
{
}

/// What is changed of one target changes nothing of the others.
pub proof fn law_other_targets_are_left_alone(
    before: State,
    next: State,
    key: Seq<char>,
    entry: Option<EntryView>,
    other: Seq<char>,
)
    requires
        before.becomes(next, key, entry),
    ensures
        next.version == before.version,
        next.entry(key) == entry,
        other != key ==> next.entry(other) == before.entry(other),
{
}

/// Something is pending of a target where its entry says so.
pub proof fn law_what_is_pending_is_remembered(state: State, target: Seq<char>)
    ensures
        is_pending(state, target) <==> state.entries().dom().contains(target)
            && state.entries()[target].pending is Some,
{
}

} // verus!
