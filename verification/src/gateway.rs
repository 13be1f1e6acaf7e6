//! A short connection to Discord's Gateway that takes a snapshot of the configured servers.
use vstd::prelude::*;
use vstd::string::*;

use crate::activity::{find_id, first_where, has_id};
use crate::avatars::names_host;
use crate::config::{Server, ServerView};
use crate::discord::{guild_result, parse_guild, DiscordError, Target, TargetView};
use crate::json::{
    list_in, member, member_views, named, text_in, unsigned_in, views, Json, JsonView, Member,
};
use crate::table::Table;
use crate::text::same;
use crate::url::{parse_url, url_parts, Url, UrlView};

verus! {

/// A URL of Discord's Gateway.
pub open spec fn is_gateway(url: UrlView) -> bool {
    &&& url.scheme == "wss"@
    &&& url.host == Some("gateway.discord.gg"@)
    &&& url.username.len() == 0
    &&& url.password is None
}

/// Where to connect, given the URL of the answer taken apart.
pub open spec fn gateway_result(body: JsonView, url: Option<UrlView>) -> Result<
    Seq<char>,
    DiscordError,
> {
    let remaining = unsigned_in(member(member(body, "session_start_limit"@), "remaining"@));
    if remaining is None || remaining->0 == 0 {
        Err(DiscordError::Budget)
    } else {
        match text_in(member(body, "url"@)) {
            None => Err(DiscordError::MissingGatewayUrl),
            Some(text) => match url {
                None => Err(DiscordError::GatewayUrl),
                Some(parts) => if is_gateway(parts) {
                    Ok(text + "/?v=10&encoding=json"@)
                } else {
                    Err(DiscordError::GatewayHost)
                },
            },
        }
    }
}

/// The URL that an answer names, taken apart.
pub open spec fn named_url(body: JsonView) -> Option<UrlView> {
    match text_in(member(body, "url"@)) {
        Some(text) => url_parts(text),
        None => None,
    }
}

/// Where to connect, from Discord's answer.
pub fn gateway(body: &Json) -> (r: Result<String, DiscordError>)
    ensures
        match r {
            Ok(url) => gateway_result(body@, named_url(body@)) == Ok::<Seq<char>, DiscordError>(
                url@,
            ),
            Err(e) => gateway_result(body@, named_url(body@)) == Err::<Seq<char>, DiscordError>(e),
        },
{
    let url = match body.get("url").as_text() {
        Some(text) => parse_url(text),
        None => None,
    };
    gateway_with(body, &url)
}

/// Where to connect, from Discord's answer and its URL taken apart.
pub fn gateway_with(body: &Json, url: &Option<Url>) -> (r: Result<String, DiscordError>)
    ensures
        match r {
            Ok(text) => gateway_result(body@, url.deep_view()) == Ok::<Seq<char>, DiscordError>(
                text@,
            ),
            Err(e) => gateway_result(body@, url.deep_view()) == Err::<Seq<char>, DiscordError>(e),
        },
{
    let remaining: u64 = match body.get("session_start_limit").get("remaining").as_unsigned() {
        Some(n) => n,
        None => 0,
    };
    if remaining == 0 {
        return Err(DiscordError::Budget);
    }
    let text = match body.get("url").as_text() {
        Some(text) => text,
        None => return Err(DiscordError::MissingGatewayUrl),
    };
    let parts = match url {
        Some(parts) => parts,
        None => return Err(DiscordError::GatewayUrl),
    };
    if !same(parts.scheme.as_str(), "wss") || !names_host(&parts.host, "gateway.discord.gg")
        || !parts.username.as_str().is_empty() || parts.password.is_some() {
        return Err(DiscordError::GatewayHost);
    }
    let mut out = text.to_owned();
    out.append("/?v=10&encoding=json");
    Ok(out)
}

/// What of the Gateway is asked for: servers and voice states; presences too where a server
/// uses activities.
pub open spec fn intents_of(servers: Seq<ServerView>) -> u64 {
    if exists|i: int| 0 <= i < servers.len() && (#[trigger] servers[i]).use_activity {
        385
    } else {
        129
    }
}

fn intents(servers: &Vec<Server>) -> (r: u64)
    ensures
        r == intents_of(servers.deep_view()),
{
    let ghost shown = servers.deep_view();
    for i in 0..servers.len()
        invariant
            shown == servers.deep_view(),
            forall|j: int| 0 <= j < i ==> !(#[trigger] shown[j]).use_activity,
    {
        if servers[i].use_activity {
            assert(shown[i as int].use_activity);
            return 385;
        }
    }
    129
}

/// The message that introduces the bot.
pub open spec fn identify_json(token: Seq<char>, intents: u64, os: Seq<char>) -> JsonView {
    JsonView::Object(
        seq![
            ("op"@, JsonView::Unsigned(2)),
            (
                "d"@,
                JsonView::Object(
                    seq![
                        ("token"@, JsonView::Text(token)),
                        ("intents"@, JsonView::Unsigned(intents)),
                        (
                            "properties"@,
                            JsonView::Object(
                                seq![
                                    ("os"@, JsonView::Text(os)),
                                    ("browser"@, JsonView::Text("sirucord"@)),
                                    ("device"@, JsonView::Text("sirucord"@)),
                                ],
                            ),
                        ),
                    ],
                ),
            ),
        ],
    )
}

/// The message that introduces the bot to the Gateway.
pub fn identify(token: &str, servers: &Vec<Server>, os: &str) -> (r: Json)
    ensures
        r@ == identify_json(token@, intents_of(servers.deep_view()), os@),
{
    let ghost wanted = identify_json(token@, intents_of(servers.deep_view()), os@);
    let mut properties: Vec<Member> = Vec::new();
    properties.push(named("os", Json::text(os)));
    properties.push(named("browser", Json::text("sirucord")));
    properties.push(named("device", Json::text("sirucord")));
    let mut data: Vec<Member> = Vec::new();
    data.push(named("token", Json::text(token)));
    data.push(named("intents", Json::Unsigned(intents(servers))));
    let ghost inner = wanted->Object_0[1].1->Object_0;
    assert(member_views(properties@) =~= inner[2].1->Object_0);
    data.push(named("properties", Json::object(properties)));
    assert(member_views(data@) =~= inner);
    let mut members: Vec<Member> = Vec::new();
    members.push(named("op", Json::Unsigned(2)));
    members.push(named("d", Json::object(data)));
    assert(member_views(members@) =~= wanted->Object_0);
    Json::object(members)
}

/// The message that keeps the connection alive.
pub open spec fn beat_json(sequence: JsonView) -> JsonView {
    JsonView::Object(seq![("op"@, JsonView::Unsigned(1)), ("d"@, sequence)])
}

fn beat(sequence: &Json) -> (r: Json)
    ensures
        r@ == beat_json(sequence@),
{
    let mut members: Vec<Member> = Vec::new();
    members.push(named("op", Json::Unsigned(1)));
    members.push(named("d", sequence.clone()));
    assert(member_views(members@) =~= beat_json(sequence@)->Object_0);
    Json::object(members)
}

/// A snapshot that is being taken.
pub struct Snapshot {
    /// The servers that nothing was said of yet.
    awaiting: Table<()>,
    /// What was found on the others.
    found: Vec<Target>,
    /// The number of the last event.
    sequence: Json,
    /// Whether the last heartbeat was answered.
    acknowledged: bool,
}

pub struct SnapshotView {
    pub awaiting: Set<Seq<char>>,
    pub found: Seq<TargetView>,
    pub sequence: JsonView,
    pub acknowledged: bool,
}

impl View for Snapshot {
    type V = SnapshotView;

    closed spec fn view(&self) -> SnapshotView {
        SnapshotView {
            awaiting: self.awaiting@.dom(),
            found: self.found.deep_view(),
            sequence: self.sequence@,
            acknowledged: self.acknowledged,
        }
    }
}

/// What to do after an event.
pub enum Step {
    /// Wait for the next event.
    Wait,
    /// Send a message.
    Send(Json),
    /// Beat every so many milliseconds from now on, and send a message.
    Begin(u64, Json),
    /// Nothing is missing any more.
    Finish,
}

pub enum StepView {
    Wait,
    Send(JsonView),
    Begin(u64, JsonView),
    Finish,
}

impl Step {
    pub open spec fn view(&self) -> StepView {
        match *self {
            Step::Wait => StepView::Wait,
            Step::Send(message) => StepView::Send(message@),
            Step::Begin(interval, message) => StepView::Begin(interval, message@),
            Step::Finish => StepView::Finish,
        }
    }
}

/// The IDs of servers.
pub open spec fn guild_ids(servers: Seq<ServerView>) -> Set<Seq<char>> {
    servers.map_values(|s: ServerView| s.guild_id).to_set()
}

/// A snapshot before the first event.
pub open spec fn fresh(servers: Seq<ServerView>) -> SnapshotView {
    SnapshotView {
        awaiting: guild_ids(servers),
        found: Seq::empty(),
        sequence: JsonView::Null,
        acknowledged: true,
    }
}

/// The first server with this ID.
pub open spec fn server_with(servers: Seq<ServerView>, id: Seq<char>) -> Option<ServerView>
    decreases servers.len(),
{
    if servers.len() == 0 {
        None
    } else if servers[0].guild_id == id {
        Some(servers[0])
    } else {
        server_with(servers.drop_first(), id)
    }
}

/// The first server with this ID.
pub fn find_server<'a>(servers: &'a Vec<Server>, id: &str) -> (r: Option<&'a Server>)
    ensures
        match r {
            Some(server) => server_with(servers.deep_view(), id@) == Some(server@),
            None => server_with(servers.deep_view(), id@) is None,
        },
{
    let ghost shown = servers.deep_view();
    let mut i: usize = 0;
    assert(shown.skip(0) =~= shown);
    while i < servers.len()
        invariant
            i <= servers.len(),
            shown == servers.deep_view(),
            server_with(shown, id@) == server_with(shown.skip(i as int), id@),
        decreases servers.len() - i,
    {
        if same(servers[i].guild_id.as_str(), id) {
            assert(shown.skip(i as int)[0] == servers@[i as int]@);
            return Some(&servers[i]);
        }
        assert(shown.skip(i as int).drop_first() =~= shown.skip(i + 1));
        i = i + 1;
    }
    None
}

/// Whether a list of servers names each of these IDs.
pub open spec fn names_all(guilds: Seq<JsonView>, ids: Set<Seq<char>>) -> bool {
    forall|id: Seq<char>|
        #[trigger] ids.contains(id) ==> first_where(guilds, has_id(id)) is Some
}

/// The number of the last event, after an event.
pub open spec fn counted(sequence: JsonView, event: JsonView) -> JsonView {
    if member(event, "s"@) is Null {
        sequence
    } else {
        member(event, "s"@)
    }
}

/// What an event about a server does. A server that is unavailable, or of which something is
/// missing, spoils the whole snapshot.
pub open spec fn guild_step(
    s: SnapshotView,
    servers: Seq<ServerView>,
    data: JsonView,
) -> Result<(SnapshotView, StepView), DiscordError> {
    match text_in(member(data, "id"@)) {
        None => Err(DiscordError::MissingGuildId),
        Some(id) => match server_with(servers, id) {
            None => Ok((s, StepView::Wait)),
            Some(server) => if member(data, "unavailable"@) == JsonView::Bool(true) {
                Err(DiscordError::Unavailable)
            } else {
                match guild_result(server, data) {
                    Err(e) => Err(e),
                    Ok(targets) => Ok(
                        (
                            SnapshotView {
                                awaiting: s.awaiting.remove(id),
                                found: s.found + targets,
                                ..s
                            },
                            if s.awaiting.remove(id) == Set::<Seq<char>>::empty() {
                                StepView::Finish
                            } else {
                                StepView::Wait
                            },
                        ),
                    ),
                }
            },
        },
    }
}

/// What an event does.
pub open spec fn step(
    before: SnapshotView,
    servers: Seq<ServerView>,
    identify: JsonView,
    event: JsonView,
) -> Result<(SnapshotView, StepView), DiscordError> {
    let s = SnapshotView { sequence: counted(before.sequence, event), ..before };
    let data = member(event, "d"@);
    let kind = member(event, "t"@);
    match unsigned_in(member(event, "op"@)) {
        Some(10) => match unsigned_in(member(data, "heartbeat_interval"@)) {
            None => Err(DiscordError::MissingInterval),
            Some(ms) => if ms == 0 {
                Err(DiscordError::InvalidInterval)
            } else {
                Ok((s, StepView::Begin(ms, identify)))
            },
        },
        Some(11) => Ok((SnapshotView { acknowledged: true, ..s }, StepView::Wait)),
        Some(1) => Ok((s, StepView::Send(beat_json(s.sequence)))),
        Some(7) => Err(DiscordError::Reconnect),
        Some(9) => Err(DiscordError::Reconnect),
        Some(0) => if kind == JsonView::Text("READY"@) {
            match list_in(member(data, "guilds"@)) {
                None => Err(DiscordError::MissingGuilds),
                Some(guilds) => if names_all(guilds, s.awaiting) {
                    Ok((s, StepView::Wait))
                } else {
                    Err(DiscordError::NotMember)
                },
            }
        } else if kind == JsonView::Text("GUILD_CREATE"@) {
            guild_step(s, servers, data)
        } else {
            Ok((s, StepView::Wait))
        },
        _ => Ok((s, StepView::Wait)),
    }
}

/// What a snapshot becomes when it is time for a heartbeat, and what is sent.
pub open spec fn ticked(s: SnapshotView) -> Result<(SnapshotView, JsonView), DiscordError> {
    if s.acknowledged {
        Ok((SnapshotView { acknowledged: false, ..s }, beat_json(s.sequence)))
    } else {
        Err(DiscordError::Heartbeat)
    }
}

impl Snapshot {
    /// Each server is awaited under one key.
    pub closed spec fn wf(&self) -> bool {
        self.awaiting.wf()
    }

    pub fn new(servers: &Vec<Server>) -> (r: Snapshot)
        ensures
            r.wf(),
            r@ == fresh(servers.deep_view()),
    {
        let ghost shown = servers.deep_view();
        let ghost ids = shown.map_values(|s: ServerView| s.guild_id);
        let mut awaiting: Table<()> = Table::new();
        assert(awaiting@.dom() =~= ids.take(0).to_set());
        for i in 0..servers.len()
            invariant
                shown == servers.deep_view(),
                ids == shown.map_values(|s: ServerView| s.guild_id),
                awaiting.wf(),
                awaiting@.dom() == ids.take(i as int).to_set(),
        {
            let ghost held = awaiting@.dom();
            awaiting.insert(servers[i].guild_id.as_str(), ());
            proof {
                let longer = ids.take(i + 1);
                assert(awaiting@.dom() =~= held.insert(ids[i as int]));
                assert forall|id: Seq<char>| #[trigger] longer.to_set().contains(id)
                    <==> held.insert(ids[i as int]).contains(id) by {
                    if longer.contains(id) {
                        let k = choose|k: int| 0 <= k < longer.len() && longer[k] == id;
                        if k < i {
                            assert(ids.take(i as int)[k] == id);
                        }
                    }
                    if held.contains(id) {
                        let k = choose|k: int|
                            0 <= k < ids.take(i as int).len() && ids.take(i as int)[k] == id;
                        assert(longer[k] == id);
                    }
                    if id == ids[i as int] {
                        assert(longer[i as int] == id);
                    }
                }
                assert(longer.to_set() =~= held.insert(ids[i as int]));
            }
        }
        assert(ids.take(ids.len() as int) =~= ids);
        let r = Snapshot { awaiting, found: Vec::new(), sequence: Json::Null, acknowledged: true };
        assert(r@.found =~= Seq::<TargetView>::empty());
        r
    }

    /// What was found.
    pub fn into_found(self) -> (r: Vec<Target>)
        ensures
            r.deep_view() == self@.found,
    {
        self.found
    }

    /// When a heartbeat is due: the message to send. A heartbeat that was not answered ends
    /// the snapshot.
    pub fn tick(self) -> (r: Result<(Snapshot, Json), DiscordError>)
        requires
            self.wf(),
        ensures
            match r {
                Ok((next, message)) => {
                    &&& self@.acknowledged
                    &&& next.wf()
                    &&& next@ == (SnapshotView { acknowledged: false, ..self@ })
                    &&& message@ == beat_json(self@.sequence)
                },
                Err(e) => !self@.acknowledged && e == DiscordError::Heartbeat,
            },
            match r {
                Ok((next, message)) => ticked(self@) == Ok::<
                    (SnapshotView, JsonView),
                    DiscordError,
                >((next@, message@)),
                Err(e) => ticked(self@) == Err::<(SnapshotView, JsonView), DiscordError>(e),
            },
    {
        if !self.acknowledged {
            return Err(DiscordError::Heartbeat);
        }
        let message = beat(&self.sequence);
        let mut next = self;
        next.acknowledged = false;
        Ok((next, message))
    }

    /// Whether every awaited server is named.
    fn all_named(&self, guilds: &Vec<Json>) -> (r: bool)
        requires
            self.wf(),
        ensures
            r == names_all(views(guilds@), self@.awaiting),
    {
        let ghost shown = views(guilds@);
        let count = self.awaiting.len();
        for i in 0..count
            invariant
                self.wf(),
                count == self.awaiting.rows().len(),
                shown == views(guilds@),
                forall|j: int|
                    0 <= j < i ==> first_where(
                        shown,
                        has_id((#[trigger] self.awaiting.rows()[j]).key@),
                    ) is Some,
        {
            if find_id(guilds, self.awaiting.row(i).key.as_str()).is_none() {
                proof {
                    self.awaiting.lemma_row(i as int);
                    assert(self@.awaiting.contains(self.awaiting.rows()[i as int].key@));
                }
                return false;
            }
        }
        proof {
            assert forall|id: Seq<char>| #[trigger] self@.awaiting.contains(id) implies first_where(
                shown,
                has_id(id),
            ) is Some by {
                let k = choose|k: int| self.awaiting.holds(k, id);
                assert(self.awaiting.rows()[k].key@ == id);
            }
        }
        true
    }

    /// Takes in what Discord says of a server.
    fn take_guild(self, servers: &Vec<Server>, data: &Json) -> (r: Result<
        (Snapshot, Step),
        DiscordError,
    >)
        requires
            self.wf(),
        ensures
            match r {
                Ok((next, done)) => next.wf() && guild_step(
                    self@,
                    servers.deep_view(),
                    data@,
                ) == Ok::<(SnapshotView, StepView), DiscordError>((next@, done@)),
                Err(e) => guild_step(self@, servers.deep_view(), data@) == Err::<
                    (SnapshotView, StepView),
                    DiscordError,
                >(e),
            },
    {
        let id = match data.get("id").as_text() {
            Some(id) => id,
            None => return Err(DiscordError::MissingGuildId),
        };
        let server = match find_server(servers, id) {
            Some(server) => server,
            None => return Ok((self, Step::Wait)),
        };
        if data.get("unavailable").is_true() {
            return Err(DiscordError::Unavailable);
        }
        let mut targets = match parse_guild(server, data) {
            Ok(targets) => targets,
            Err(e) => return Err(e),
        };
        let ghost before = self@;
        let ghost fresh = targets.deep_view();
        let mut next = self;
        next.awaiting.remove(id);
        next.found.append(&mut targets);
        proof {
            assert(next@.found =~= before.found + fresh);
            assert(next@.awaiting =~= before.awaiting.remove(id@));
        }
        if next.awaiting.len() == 0 {
            proof {
                assert(next@.awaiting =~= Set::<Seq<char>>::empty());
            }
            Ok((next, Step::Finish))
        } else {
            proof {
                next.awaiting.lemma_row(0);
                assert(next@.awaiting.contains(next.awaiting.rows()[0].key@));
            }
            Ok((next, Step::Wait))
        }
    }

    /// Takes in an event. An error ends the snapshot: nothing of it is kept.
    pub fn receive(self, servers: &Vec<Server>, identify: &Json, event: &Json) -> (r: Result<
        (Snapshot, Step),
        DiscordError,
    >)
        requires
            self.wf(),
        ensures
            match r {
                Ok((next, done)) => next.wf() && step(
                    self@,
                    servers.deep_view(),
                    identify@,
                    event@,
                ) == Ok::<(SnapshotView, StepView), DiscordError>((next@, done@)),
                Err(e) => step(self@, servers.deep_view(), identify@, event@) == Err::<
                    (SnapshotView, StepView),
                    DiscordError,
                >(e),
            },
    {
        let mut next = self;
        if !event.get("s").is_null() {
            next.sequence = event.get("s").clone();
        }
        let data = event.get("d");
        let op: u64 = match event.get("op").as_unsigned() {
            Some(op) => op,
            None => return Ok((next, Step::Wait)),
        };
        if op == 10 {
            return match data.get("heartbeat_interval").as_unsigned() {
                None => Err(DiscordError::MissingInterval),
                Some(ms) => if ms == 0 {
                    Err(DiscordError::InvalidInterval)
                } else {
                    Ok((next, Step::Begin(ms, identify.clone())))
                },
            };
        }
        if op == 11 {
            next.acknowledged = true;
            return Ok((next, Step::Wait));
        }
        if op == 1 {
            let message = beat(&next.sequence);
            return Ok((next, Step::Send(message)));
        }
        if op == 7 || op == 9 {
            return Err(DiscordError::Reconnect);
        }
        if op == 0 && event.get("t").is_text("READY") {
            return match data.get("guilds").as_list() {
                None => Err(DiscordError::MissingGuilds),
                Some(guilds) => if next.all_named(guilds) {
                    Ok((next, Step::Wait))
                } else {
                    Err(DiscordError::NotMember)
                },
            };
        }
        if op == 0 && event.get("t").is_text("GUILD_CREATE") {
            return next.take_guild(servers, data);
        }
        Ok((next, Step::Wait))
    }
}

/// A snapshot is finished only when nothing is awaited any more, and a server is no longer
/// awaited only once all that was to be found on it has been found: an outage cannot pass for
/// an empty server.
pub proof fn law_snapshot_is_complete(
    before: SnapshotView,
    servers: Seq<ServerView>,
    identify: JsonView,
    event: JsonView,
)
    requires
        step(before, servers, identify, event) is Ok,
    ensures
        ({
            let (next, done) = step(before, servers, identify, event)->Ok_0;
            let data = member(event, "d"@);
            &&& done is Finish ==> next.awaiting == Set::<Seq<char>>::empty()
            &&& forall|id: Seq<char>| #[trigger]
                before.awaiting.contains(id) && !next.awaiting.contains(id) ==> {
                    &&& text_in(member(data, "id"@)) == Some(id)
                    &&& server_with(servers, id) is Some
                    &&& guild_result(server_with(servers, id)->0, data) is Ok
                    &&& next.found == before.found + guild_result(
                        server_with(servers, id)->0,
                        data,
                    )->Ok_0
                }
        }),
{
}

} // verus!
