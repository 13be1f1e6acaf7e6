//! The targets of a run: those that were found, and those that are remembered and gone.
use vstd::prelude::*;
use vstd::string::*;

use crate::activity::first_artwork;
use crate::config::{target_key, Server, ServerView, Streamer, StreamerView};
use crate::discord::{clone_text, clone_texts, Target, TargetView};
use crate::engine::{complete, completed, EngineError, Entry, EntryView, PendingView, State};
use crate::gateway::{find_server, server_with};
use crate::keys::{fresh_key, is_uuid};
use crate::number::{decimal, decimal_text};
use crate::table::{Row, Table};
use crate::text::{
    begins, find, halves, lemma_filter_step, lemma_find, split_once, starts_with,
};
use crate::time::Timestamp;
use crate::visit::{Observed, ObservedView};

verus! {

/// Each target as it stands, by its name.
pub open spec fn observed_of(table: Table<Observed>) -> Map<Seq<char>, ObservedView> {
    Map::new(|key: Seq<char>| table@.dom().contains(key), |key: Seq<char>| table@[key]@)
}

/// A target's name.
pub open spec fn name_of(t: ObservedView) -> Seq<char> {
    target_key(t.streamer.guild_id, t.streamer.user_id)
}

/// The targets of a list by name; of two with one name, the later.
pub open spec fn listed(list: Seq<ObservedView>) -> Map<Seq<char>, ObservedView>
    decreases list.len(),
{
    if list.len() == 0 {
        Map::empty()
    } else {
        listed(list.drop_last()).insert(name_of(list.last()), list.last())
    }
}

/// A target that was found.
pub open spec fn found(t: TargetView) -> ObservedView {
    ObservedView { streamer: t.0, voice: Some(t.1) }
}

/// Puts together what was discovered and what is known of the people that are watched
/// individually.
pub fn observe(discovered: &Vec<Target>, individuals: &Vec<Observed>) -> (r: Table<Observed>)
    ensures
        r.wf(),
        observed_of(r) == listed(
            discovered.deep_view().map_values(|t: TargetView| found(t)) + individuals.deep_view(),
        ),
{
    let ghost first = discovered.deep_view().map_values(|t: TargetView| found(t));
    let ghost second = individuals.deep_view();
    let ghost all = first + second;
    let mut table: Table<Observed> = Table::new();
    assert(observed_of(table) =~= Map::<Seq<char>, ObservedView>::empty());
    assert(all.take(0) =~= Seq::<ObservedView>::empty());
    for i in 0..discovered.len()
        invariant
            table.wf(),
            first == discovered.deep_view().map_values(|t: TargetView| found(t)),
            all == first + second,
            observed_of(table) == listed(all.take(i as int)),
    {
        let ghost held = observed_of(table);
        let seen = Observed {
            streamer: discovered[i].0.clone(),
            voice: Some(discovered[i].1.clone()),
        };
        let key = seen.streamer.key();
        let ghost shown = seen@;
        proof {
            assert(all.take(i + 1).drop_last() =~= all.take(i as int));
            assert(all.take(i + 1).last() == first[i as int]);
            assert(first[i as int] == found(discovered@[i as int].deep_view()));
        }
        table.insert(key.as_str(), seen);
        assert(observed_of(table) =~= held.insert(key@, shown));
    }
    for j in 0..individuals.len()
        invariant
            table.wf(),
            second == individuals.deep_view(),
            all == first + second,
            observed_of(table) == listed(all.take(first.len() + j)),
    {
        let ghost held = observed_of(table);
        let ghost at = first.len() + j;
        let seen = individuals[j].clone();
        let key = seen.streamer.key();
        let ghost shown = seen@;
        proof {
            assert(all.take(at + 1).drop_last() =~= all.take(at));
            assert(all.take(at + 1).last() == second[j as int]);
        }
        table.insert(key.as_str(), seen);
        assert(observed_of(table) =~= held.insert(key@, shown));
    }
    assert(all.take(all.len() as int) =~= all);
    table
}

/// A remembered target of a configured server that is gone. What is remembered of a shared
/// channel is no such target: nobody is ever in it.
pub open spec fn offline(servers: Seq<ServerView>, name: Seq<char>) -> Option<ObservedView> {
    match halves(name, ':') {
        None => None,
        Some((guild, user)) => if begins(user, "share-"@) {
            None
        } else {
            match server_with(servers, guild) {
                None => None,
                Some(server) => Some(
                    ObservedView {
                        streamer: StreamerView {
                            guild_id: guild,
                            user_id: user,
                            display_name: "Discord配信者"@,
                            voice_channel_ids: server.voice_channel_ids,
                            default_title: server.default_title,
                            announcement_channel_id: server.announcement_channel_id,
                            screenshots: server.screenshots,
                        },
                        voice: None,
                    },
                ),
            }
        },
    }
}

/// The targets that stand somehow, and of these names those that are gone.
pub open spec fn extended(
    seen: Map<Seq<char>, ObservedView>,
    servers: Seq<ServerView>,
    names: Set<Seq<char>>,
) -> Map<Seq<char>, ObservedView> {
    Map::new(
        |name: Seq<char>|
            seen.dom().contains(name) || names.contains(name) && offline(servers, name) is Some,
        |name: Seq<char>|
            if seen.dom().contains(name) {
                seen[name]
            } else {
                offline(servers, name)->0
            },
    )
}

/// Whether every remembered target that is not seen has the name of a target.
pub open spec fn all_named(seen: Set<Seq<char>>, names: Set<Seq<char>>) -> bool {
    forall|name: Seq<char>| #[trigger]
        names.contains(name) && !seen.contains(name) ==> halves(name, ':') is Some
}

/// Adds the targets that are remembered and gone, so that what is pending is delivered and
/// what has ended is forgotten. Targets that are no longer configured stay as they are.
pub fn add_offline(seen: Table<Observed>, state: &State, servers: &Vec<Server>) -> (r: Result<
    Table<Observed>,
    EngineError,
>)
    requires
        seen.wf(),
        state.wf(),
    ensures
        match r {
            Ok(table) => {
                &&& table.wf()
                &&& all_named(observed_of(seen).dom(), state.entries().dom())
                &&& observed_of(table) == extended(
                    observed_of(seen),
                    servers.deep_view(),
                    state.entries().dom(),
                )
            },
            Err(e) => e == EngineError::MalformedTarget && !all_named(
                observed_of(seen).dom(),
                state.entries().dom(),
            ),
        },
{
    let ghost first = observed_of(seen);
    let ghost configured = servers.deep_view();
    let ghost rows = state.entries.rows();
    let ghost mut names: Set<Seq<char>> = Set::empty();
    let mut table = seen;
    assert(observed_of(table) =~= extended(first, configured, names));
    let count = state.entries.len();
    for i in 0..count
        invariant
            table.wf(),
            state.wf(),
            configured == servers.deep_view(),
            rows == state.entries.rows(),
            count == rows.len(),
            names == Set::new(|n: Seq<char>| exists|k: int| 0 <= k < i && (#[trigger] rows[k]).key@ == n),
            observed_of(table) == extended(first, configured, names),
            all_named(first.dom(), names),
            first == observed_of(seen),
    {
        let row = state.entries.row(i);
        let name = row.key.as_str();
        let ghost more = names.insert(name@);
        proof {
            state.entries.lemma_row(i as int);
            assert(state.entries().dom().contains(name@));
            assert(forall|k: int| 0 <= k < i ==> (#[trigger] rows[k]).key@ != name@) by {
                assert forall|k: int| 0 <= k < i implies (#[trigger] rows[k]).key@ != name@ by {
                    if rows[k].key@ == name@ {
                        state.entries.lemma_unique(k, i as int, name@);
                    }
                }
            }
            assert(!names.contains(name@));
            assert(more =~= Set::new(
                |n: Seq<char>| exists|k: int| 0 <= k < i + 1 && (#[trigger] rows[k]).key@ == n,
            )) by {
                assert forall|n: Seq<char>| #[trigger] more.contains(n) <==> (exists|k: int|
                    0 <= k < i + 1 && (#[trigger] rows[k]).key@ == n) by {
                    if more.contains(n) && n != name@ {
                        let k = choose|k: int| 0 <= k < i && (#[trigger] rows[k]).key@ == n;
                        assert(rows[k].key@ == n);
                    }
                    if n == name@ {
                        assert(rows[i as int].key@ == n);
                    }
                }
            }
        }
        let ghost held = observed_of(table);
        let known = table.get(name).is_some();
        assert(known == first.dom().contains(name@)) by {
            assert(known == held.dom().contains(name@));
        }
        if !known {
            match split_once(name, ':') {
                None => {
                    assert(state.entries().dom().contains(name@) && !first.dom().contains(name@));
                    return Err(EngineError::MalformedTarget);
                },
                Some((guild, user)) => {
                    if !starts_with(user.as_str(), "share-") {
                        if let Some(server) = find_server(servers, guild.as_str()) {
                            let gone = Observed {
                                streamer: Streamer {
                                    guild_id: guild,
                                    user_id: user,
                                    display_name: "Discord配信者".to_owned(),
                                    voice_channel_ids: clone_texts(&server.voice_channel_ids),
                                    default_title: server.default_title.clone(),
                                    announcement_channel_id: clone_text(
                                        &server.announcement_channel_id,
                                    ),
                                    screenshots: server.screenshots,
                                },
                                voice: None,
                            };
                            assert(offline(configured, name@) == Some(gone@));
                            table.insert(name, gone);
                            assert(observed_of(table) =~= held.insert(name@, gone@));
                        }
                    }
                },
            }
        }
        proof {
            names = more;
            assert(observed_of(table) =~= extended(first, configured, names));
        }
    }
    proof {
        assert(names =~= state.entries().dom()) by {
            assert forall|n: Seq<char>| #[trigger] names.contains(n) <==> state.entries().dom().contains(
                n,
            ) by {
                if names.contains(n) {
                    let k = choose|k: int| 0 <= k < count && (#[trigger] rows[k]).key@ == n;
                    state.entries.lemma_row(k);
                }
                if state.entries().dom().contains(n) {
                    let k = choose|k: int| state.entries.holds(k, n);
                    assert(rows[k].key@ == n);
                }
            }
        }
    }
    Ok(table)
}

/// A test for targets that stream.
pub open spec fn streams() -> spec_fn(Row<Observed>) -> bool {
    |row: Row<Observed>| row.value@.voice is Some && row.value@.voice->0.self_stream
}

/// A test for targets that people are in without a stream.
pub open spec fn gathers() -> spec_fn(Row<Observed>) -> bool {
    |row: Row<Observed>| row.value@.voice is Some && !row.value@.voice->0.self_stream
}

/// A test for streams that something is known of.
pub open spec fn is_described() -> spec_fn(Row<Observed>) -> bool {
    |row: Row<Observed>| streams()(row) && row.value@.voice->0.context is Some
}

/// A test for streams whose activities are known.
pub open spec fn is_detailed() -> spec_fn(Row<Observed>) -> bool {
    |row: Row<Observed>|
        is_described()(row) && row.value@.voice->0.context->0.activities.len() > 0
}

/// A test for streams whose activities bring an image.
pub open spec fn is_illustrated() -> spec_fn(Row<Observed>) -> bool {
    |row: Row<Observed>|
        is_described()(row) && first_artwork(row.value@.voice->0.context->0.activities) is Some
}

/// How many of the targets stand how.
#[derive(Clone, Copy, Debug, PartialEq, Eq, Structural)]
pub struct Tally {
    pub targets: usize,
    pub live: usize,
    pub occupied: usize,
    pub described: usize,
    pub detailed: usize,
    pub illustrated: usize,
}

/// Whether numbers are those of what goes on in these rows.
pub open spec fn tallies(t: Tally, rows: Seq<Row<Observed>>) -> bool {
    &&& t.targets == rows.len()
    &&& t.live == rows.filter(streams()).len()
    &&& t.occupied == rows.filter(gathers()).len()
    &&& t.described == rows.filter(is_described()).len()
    &&& t.detailed == rows.filter(is_detailed()).len()
    &&& t.illustrated == rows.filter(is_illustrated()).len()
}

/// Counts the targets.
pub fn tally(table: &Table<Observed>) -> (r: Tally)
    ensures
        r.targets == table.rows().len(),
        r.live == table.rows().filter(streams()).len(),
        r.occupied == table.rows().filter(gathers()).len(),
        r.described == table.rows().filter(is_described()).len(),
        r.detailed == table.rows().filter(is_detailed()).len(),
        r.illustrated == table.rows().filter(is_illustrated()).len(),
        tallies(r, table.rows()),
{
    let ghost rows = table.rows();
    let count = table.len();
    let mut r = Tally {
        targets: count,
        live: 0,
        occupied: 0,
        described: 0,
        detailed: 0,
        illustrated: 0,
    };
    proof {
        reveal(Seq::filter);
    }
    for i in 0..count
        invariant
            rows == table.rows(),
            count == rows.len(),
            r.targets == count,
            r.live == rows.take(i as int).filter(streams()).len(),
            r.occupied == rows.take(i as int).filter(gathers()).len(),
            r.described == rows.take(i as int).filter(is_described()).len(),
            r.detailed == rows.take(i as int).filter(is_detailed()).len(),
            r.illustrated == rows.take(i as int).filter(is_illustrated()).len(),
            r.live <= i,
            r.occupied <= i,
            r.described <= i,
            r.detailed <= i,
            r.illustrated <= i,
    {
        proof {
            lemma_filter_step(rows, streams(), i as int);
            lemma_filter_step(rows, gathers(), i as int);
            lemma_filter_step(rows, is_described(), i as int);
            lemma_filter_step(rows, is_detailed(), i as int);
            lemma_filter_step(rows, is_illustrated(), i as int);
        }
        if let Some(voice) = &table.row(i).value.voice {
            if voice.self_stream {
                r.live = r.live + 1;
                if let Some(context) = &voice.context {
                    r.described = r.described + 1;
                    if context.activities.len() > 0 {
                        r.detailed = r.detailed + 1;
                    }
                    if context.artwork().is_some() {
                        r.illustrated = r.illustrated + 1;
                    }
                }
            } else {
                r.occupied = r.occupied + 1;
            }
        }
    }
    assert(rows.take(rows.len() as int) =~= rows);
    r
}

/// What a log says of the targets.
pub open spec fn summary_of(t: Tally) -> Seq<char> {
    "Checked "@ + decimal(t.targets as nat) + " target(s); "@ + decimal(t.live as nat)
        + " live stream(s); "@ + decimal(t.occupied as nat)
        + " occupied channel(s) without streams."@
}

/// What a log says of the streams that something is known of.
pub open spec fn metadata_of(t: Tally) -> Option<Seq<char>> {
    if t.described > 0 {
        Some(
            "Automatic metadata: "@ + decimal(t.detailed as nat)
                + " stream(s) with activity details; "@ + decimal(t.illustrated as nat)
                + " with artwork."@,
        )
    } else {
        None
    }
}

impl Tally {
    /// Whether somebody is there.
    pub fn is_occupied(&self) -> (r: bool)
        ensures
            r == (self.live > 0 || self.occupied > 0),
    {
        self.live > 0 || self.occupied > 0
    }

    /// What a log says of the targets: numbers, and neither names nor texts.
    pub fn summary(&self) -> (r: String)
        ensures
            r@ == "Checked "@ + decimal(self.targets as nat) + " target(s); "@ + decimal(
                self.live as nat,
            ) + " live stream(s); "@ + decimal(self.occupied as nat)
                + " occupied channel(s) without streams."@,
            r@ == summary_of(*self),
    {
        let mut out = "Checked ".to_owned();
        out.append(decimal_text(self.targets as u64).as_str());
        out.append(" target(s); ");
        out.append(decimal_text(self.live as u64).as_str());
        out.append(" live stream(s); ");
        out.append(decimal_text(self.occupied as u64).as_str());
        out.append(" occupied channel(s) without streams.");
        out
    }

    /// What a log says of the streams that something is known of.
    pub fn metadata(&self) -> (r: Option<String>)
        ensures
            match r {
                Some(text) => self.described > 0 && text@ == "Automatic metadata: "@ + decimal(
                    self.detailed as nat,
                ) + " stream(s) with activity details; "@ + decimal(self.illustrated as nat)
                    + " with artwork."@,
                None => self.described == 0,
            },
            r.deep_view() == metadata_of(*self),
    {
        if self.described == 0 {
            return None;
        }
        let mut out = "Automatic metadata: ".to_owned();
        out.append(decimal_text(self.detailed as u64).as_str());
        out.append(" stream(s) with activity details; ");
        out.append(decimal_text(self.illustrated as u64).as_str());
        out.append(" with artwork.");
        Some(out)
    }
}

/// Whether somebody is in a channel of a server.
pub open spec fn is_occupied(seen: Map<Seq<char>, ObservedView>, guild: Seq<char>) -> bool {
    exists|name: Seq<char>| #[trigger]
        seen.dom().contains(name) && seen[name].voice is Some && seen[name].streamer.guild_id
            == guild
}

/// The servers that somebody is in a channel of.
pub fn occupied_guilds(table: &Table<Observed>) -> (r: Table<()>)
    requires
        table.wf(),
    ensures
        r.wf(),
        forall|guild: Seq<char>| #[trigger]
            r@.dom().contains(guild) <==> is_occupied(observed_of(*table), guild),
{
    let ghost rows = table.rows();
    let ghost seen = observed_of(*table);
    let count = table.len();
    let mut guilds: Table<()> = Table::new();
    for i in 0..count
        invariant
            table.wf(),
            guilds.wf(),
            rows == table.rows(),
            count == rows.len(),
            seen == observed_of(*table),
            forall|guild: Seq<char>| #[trigger]
                guilds@.dom().contains(guild) <==> exists|k: int|
                    0 <= k < i && (#[trigger] rows[k]).value@.voice is Some
                        && rows[k].value@.streamer.guild_id == guild,
    {
        let row = table.row(i);
        let ghost held = guilds@.dom();
        if row.value.voice.is_some() {
            guilds.insert(row.value.streamer.guild_id.as_str(), ());
        }
        proof {
            assert forall|guild: Seq<char>| #[trigger] guilds@.dom().contains(guild) <==> exists|
                k: int,
            |
                0 <= k < i + 1 && (#[trigger] rows[k]).value@.voice is Some
                    && rows[k].value@.streamer.guild_id == guild by {
                if guilds@.dom().contains(guild) {
                    if held.contains(guild) {
                        let k = choose|k: int|
                            0 <= k < i && (#[trigger] rows[k]).value@.voice is Some
                                && rows[k].value@.streamer.guild_id == guild;
                        assert(rows[k].value@.voice is Some);
                    } else {
                        assert(rows[i as int].value@.voice is Some);
                    }
                }
                if exists|k: int|
                    0 <= k < i + 1 && (#[trigger] rows[k]).value@.voice is Some
                        && rows[k].value@.streamer.guild_id == guild {
                    let k = choose|k: int|
                        0 <= k < i + 1 && (#[trigger] rows[k]).value@.voice is Some
                            && rows[k].value@.streamer.guild_id == guild;
                    if k < i {
                        assert(held.contains(guild));
                    }
                }
            }
        }
    }
    proof {
        assert forall|guild: Seq<char>| #[trigger] guilds@.dom().contains(guild) <==> is_occupied(
            seen,
            guild,
        ) by {
            if guilds@.dom().contains(guild) {
                let k = choose|k: int|
                    0 <= k < count && (#[trigger] rows[k]).value@.voice is Some
                        && rows[k].value@.streamer.guild_id == guild;
                table.lemma_row(k);
                assert(seen.dom().contains(rows[k].key@));
            }
            if is_occupied(seen, guild) {
                let name = choose|name: Seq<char>| #[trigger]
                    seen.dom().contains(name) && seen[name].voice is Some
                        && seen[name].streamer.guild_id == guild;
                let k = choose|k: int| table.holds(k, name);
                table.lemma_row(k);
                assert(rows[k].value@.voice is Some);
            }
        }
    }
    guilds
}

/// What is remembered of a shared channel is never taken for a target that is gone.
pub proof fn law_shared_cursors_are_kept(
    seen: Map<Seq<char>, ObservedView>,
    servers: Seq<ServerView>,
    names: Set<Seq<char>>,
    guild: Seq<char>,
    channel: Seq<char>,
)
    requires
        !guild.contains(':'),
        !seen.dom().contains(target_key(guild, "share-"@ + channel)),
    ensures
        !extended(seen, servers, names).dom().contains(target_key(guild, "share-"@ + channel)),
{
    let user = "share-"@ + channel;
    let name = target_key(guild, user);
    lemma_name_halves(guild, user);
    assert(user.take("share-"@.len() as int) =~= "share-"@);
}

/// The name of a target tells the server and the person apart.
proof fn lemma_name_halves(guild: Seq<char>, user: Seq<char>)
    requires
        !guild.contains(':'),
    ensures
        halves(target_key(guild, user), ':') == Some((guild, user)),
{
    let name = target_key(guild, user);
    lemma_find(name, ':');
    lemma_find(guild, ':');
    let n = find(name, ':') as int;
    assert(name[guild.len() as int] == ':');
    assert(n <= guild.len());
    if n < guild.len() {
        assert(name[n] == guild[n]);
        assert(guild.contains(':'));
    }
    assert(name.take(n) =~= guild);
    assert(name.skip(n + 1) =~= user);
}

/// A remembered target whose server is no longer configured is left as it is.
pub proof fn law_removed_targets_stay(
    seen: Map<Seq<char>, ObservedView>,
    servers: Seq<ServerView>,
    names: Set<Seq<char>>,
    guild: Seq<char>,
    user: Seq<char>,
)
    requires
        !guild.contains(':'),
        server_with(servers, guild) is None,
        !seen.dom().contains(target_key(guild, user)),
    ensures
        !extended(seen, servers, names).dom().contains(target_key(guild, user)),
{
    lemma_name_halves(guild, user);
}

/// A remembered target of a configured server that is not seen is among the targets, as gone.
pub proof fn law_gone_targets_are_visited(
    seen: Map<Seq<char>, ObservedView>,
    servers: Seq<ServerView>,
    names: Set<Seq<char>>,
    guild: Seq<char>,
    user: Seq<char>,
)
    requires
        !guild.contains(':'),
        !begins(user, "share-"@),
        server_with(servers, guild) is Some,
        !seen.dom().contains(target_key(guild, user)),
        names.contains(target_key(guild, user)),
    ensures
        extended(seen, servers, names).dom().contains(target_key(guild, user)),
        extended(seen, servers, names)[target_key(guild, user)].voice is None,
{
    lemma_name_halves(guild, user);
}

/// An announcement whose outcome is to be resolved by hand.
pub struct Unresolved {
    pub target: String,
    pub attempted_at: Option<Timestamp>,
    pub key: String,
}

pub struct UnresolvedView {
    pub target: Seq<char>,
    pub attempted_at: Option<Timestamp>,
    pub key: Seq<char>,
}

impl View for Unresolved {
    type V = UnresolvedView;

    open spec fn view(&self) -> UnresolvedView {
        UnresolvedView { target: self.target@, attempted_at: self.attempted_at, key: self.key@ }
    }
}

impl DeepView for Unresolved {
    type V = UnresolvedView;

    open spec fn deep_view(&self) -> UnresolvedView {
        self@
    }
}

/// What is pending, in the order of the targets' names.
pub open spec fn unresolved_in(rows: Seq<Row<Entry>>) -> Seq<UnresolvedView>
    decreases rows.len(),
{
    if rows.len() == 0 {
        Seq::empty()
    } else {
        let front = unresolved_in(rows.drop_last());
        match rows.last().value@.pending {
            Some(p) => front.push(
                UnresolvedView {
                    target: rows.last().key@,
                    attempted_at: p.attempted_at,
                    key: p.key,
                },
            ),
            None => front,
        }
    }
}

pub fn unresolved(state: &State) -> (r: Vec<Unresolved>)
    ensures
        r.deep_view() == unresolved_in(state.entries.rows()),
{
    let ghost rows = state.entries.rows();
    let count = state.entries.len();
    let mut out: Vec<Unresolved> = Vec::new();
    assert(out.deep_view() =~= Seq::<UnresolvedView>::empty());
    for i in 0..count
        invariant
            rows == state.entries.rows(),
            count == rows.len(),
            out.deep_view() == unresolved_in(rows.take(i as int)),
    {
        let ghost held = out.deep_view();
        let row = state.entries.row(i);
        proof {
            assert(rows.take(i + 1).drop_last() =~= rows.take(i as int));
        }
        if let Some(p) = &row.value.pending {
            let item = Unresolved {
                target: row.key.clone(),
                attempted_at: p.attempted_at,
                key: p.key.clone(),
            };
            out.push(item);
            assert(out.deep_view() =~= held.push(item@));
        }
    }
    assert(rows.take(rows.len() as int) =~= rows);
    out
}

/// Whether something is pending for a target.
pub open spec fn is_pending(state: State, target: Seq<char>) -> bool {
    state.entry(target) is Some && state.entry(target)->0.pending is Some
}

/// Takes a pending announcement for published.
pub fn resolve_posted(state: &mut State, target: &str, now: Timestamp) -> (r: Result<
    (),
    EngineError,
>)
    requires
        old(state).wf(),
    ensures
        final(state).wf(),
        match r {
            Ok(_) => is_pending(*old(state), target@) && old(state).becomes(
                *final(state),
                target@,
                Some(completed(old(state).entry(target@)->0, now)),
            ),
            Err(e) => !is_pending(*old(state), target@) && e == EngineError::NothingPending
                && *final(state) == *old(state),
        },
{
    let pending = match state.entries.get(target) {
        Some(entry) => entry.pending.is_some(),
        None => false,
    };
    if !pending {
        return Err(EngineError::NothingPending);
    }
    complete(state, target, now);
    Ok(())
}

/// The entry whose announcement may be attempted again, under a new key.
pub open spec fn reopened(e: EntryView, key: Seq<char>) -> EntryView {
    EntryView {
        pending: Some(PendingView { attempted_at: None, key, ..e.pending->0 }),
        ..e
    }
}

/// Allows a pending announcement to be attempted again, under this key.
pub fn resolve_retry_with(state: &mut State, target: &str, key: &str) -> (r: Result<
    (),
    EngineError,
>)
    requires
        old(state).wf(),
    ensures
        final(state).wf(),
        match r {
            Ok(_) => is_pending(*old(state), target@) && old(state).becomes(
                *final(state),
                target@,
                Some(reopened(old(state).entry(target@)->0, key@)),
            ),
            Err(e) => !is_pending(*old(state), target@) && e == EngineError::NothingPending
                && *final(state) == *old(state),
        },
{
    match state.get(target) {
        None => Err(EngineError::NothingPending),
        Some(entry) => {
            let mut whole = entry.clone();
            match entry.pending {
                None => Err(EngineError::NothingPending),
                Some(p) => {
                    let mut p = p;
                    p.attempted_at = None;
                    p.key = key.to_owned();
                    whole.pending = Some(p);
                    state.put(target, whole);
                    Ok(())
                },
            }
        },
    }
}

/// Allows a pending announcement to be attempted again, under a new key.
pub fn resolve_retry(state: &mut State, target: &str) -> (r: Result<(), EngineError>)
    requires
        old(state).wf(),
    ensures
        final(state).wf(),
        match r {
            Ok(_) => is_pending(*old(state), target@) && exists|key: Seq<char>| #[trigger]
                is_uuid(key) && old(state).becomes(
                    *final(state),
                    target@,
                    Some(reopened(old(state).entry(target@)->0, key)),
                ),
            Err(e) => !is_pending(*old(state), target@) && e == EngineError::NothingPending
                && *final(state) == *old(state),
        },
{
    let key = fresh_key();
    assert(is_uuid(key@));
    resolve_retry_with(state, target, key.as_str())
}

} // verus!
