//! What a run reads before it does anything: the state, the account, and how every target
//! stands. One reading that fails ends the run, so that no outage is taken for an end.
use vstd::prelude::*;
use vstd::string::*;

use crate::config::{Config, ServerView, StreamerView};
use crate::discord::{
    discord_message, voice_result, Discord, DiscordError, Target, TargetView,
};
use crate::engine::{engine_message, EngineError, State};
use crate::http::{is_success, succeeded};
use crate::json::{Json, JsonView};
use crate::mastodon::{mastodon_message, MastodonError, Service};
use crate::table::Table;
use crate::targets::{
    add_offline, all_named, extended, found, listed, observe, observed_of,
};
use crate::visit::{Observed, ObservedView};

verus! {

/// Something that has to be read. Nothing of it changes anything.
#[derive(Clone, Copy, Debug, PartialEq, Eq, Structural)]
pub enum Reading {
    /// The state that is kept.
    State,
    /// The account that is posted to.
    Account,
    /// Who is in the calls of the configured servers.
    Servers,
    /// The voice state of the configured person at this place.
    Person(usize),
}

/// What was read.
pub enum Reply {
    State(State),
    /// The answer of a service: a status and a body.
    Answer(u16, Json),
    Targets(Vec<Target>),
    /// It could not be read.
    Failed,
}

pub enum ReplyView {
    State(State),
    Answer(u16, JsonView),
    Targets(Seq<TargetView>),
    Failed,
}

impl Reply {
    pub open spec fn view(&self) -> ReplyView {
        match *self {
            Reply::State(state) => ReplyView::State(state),
            Reply::Answer(status, body) => ReplyView::Answer(status, body@),
            Reply::Targets(list) => ReplyView::Targets(list.deep_view()),
            Reply::Failed => ReplyView::Failed,
        }
    }

    /// A state that was read is in order.
    pub open spec fn wf(&self) -> bool {
        *self matches Reply::State(state) ==> state.wf()
    }
}

/// Why a run ends before it does anything.
#[derive(Clone, Copy, Debug, PartialEq, Eq, Structural)]
pub enum RunError {
    /// Something could not be read.
    Unread,
    /// The account cannot be posted to.
    Account(u16),
    Discord(DiscordError),
    Engine(EngineError),
}

/// What is said where a run ends.
pub open spec fn run_message(e: RunError) -> Seq<char> {
    match e {
        RunError::Unread => "Something could not be read; nothing was changed"@,
        RunError::Account(status) => mastodon_message(
            MastodonError::Status(Service::Credentials, status),
        ),
        RunError::Discord(e) => discord_message(e),
        RunError::Engine(e) => engine_message(e),
    }
}

impl RunError {
    pub fn message(&self) -> (r: String)
        ensures
            r@ == run_message(*self),
    {
        match self {
            RunError::Unread => "Something could not be read; nothing was changed".to_owned(),
            RunError::Account(status) => MastodonError::Status(
                Service::Credentials,
                *status,
            ).message(),
            RunError::Discord(e) => e.message(),
            RunError::Engine(e) => e.message().to_owned(),
        }
    }
}

/// What was read so far, and what is being read.
pub struct Survey {
    pub state: State,
    pub discovered: Vec<Target>,
    pub individuals: Vec<Observed>,
    pub reading: Reading,
}

pub struct SurveyView {
    pub state: State,
    pub discovered: Seq<TargetView>,
    pub individuals: Seq<ObservedView>,
    pub reading: Reading,
}

impl View for Survey {
    type V = SurveyView;

    open spec fn view(&self) -> SurveyView {
        SurveyView {
            state: self.state,
            discovered: self.discovered.deep_view(),
            individuals: self.individuals.deep_view(),
            reading: self.reading,
        }
    }
}

/// What comes of a reading: another one, or all that a run is about.
pub enum Surveyed {
    Ask(Survey),
    Ready(State, Table<Observed>),
}

pub enum SurveyedView {
    Ask(SurveyView),
    Ready(State, Map<Seq<char>, ObservedView>),
}

impl Surveyed {
    pub open spec fn view(&self) -> SurveyedView {
        match *self {
            Surveyed::Ask(survey) => SurveyedView::Ask(survey@),
            Surveyed::Ready(state, table) => SurveyedView::Ready(state, observed_of(table)),
        }
    }

    pub open spec fn wf(&self) -> bool {
        match *self {
            Surveyed::Ask(survey) => survey.state.wf(),
            Surveyed::Ready(state, table) => state.wf() && table.wf(),
        }
    }
}

/// What comes of a step.
pub type SurveyResult = Result<SurveyedView, RunError>;

/// The targets that were found.
pub open spec fn seen_by(s: SurveyView) -> Map<Seq<char>, ObservedView> {
    listed(s.discovered.map_values(|t: TargetView| found(t)) + s.individuals)
}

/// Reads the next person, or puts together what was read.
pub open spec fn go_on(
    s: SurveyView,
    servers: Seq<ServerView>,
    streamers: Seq<StreamerView>,
) -> SurveyResult {
    if s.individuals.len() < streamers.len() {
        Ok(
            SurveyedView::Ask(
                SurveyView { reading: Reading::Person(s.individuals.len() as usize), ..s },
            ),
        )
    } else if all_named(seen_by(s).dom(), s.state.entries().dom()) {
        Ok(
            SurveyedView::Ready(
                s.state,
                extended(seen_by(s), servers, s.state.entries().dom()),
            ),
        )
    } else {
        Err(RunError::Engine(EngineError::MalformedTarget))
    }
}

/// A step of a survey: what was being read, and what came of it. Servers are only asked for
/// where there are some.
pub open spec fn survey_step(
    s: SurveyView,
    servers: Seq<ServerView>,
    streamers: Seq<StreamerView>,
    reply: ReplyView,
) -> SurveyResult {
    match (s.reading, reply) {
        (Reading::State, ReplyView::State(state)) => Ok(
            SurveyedView::Ask(SurveyView { state, reading: Reading::Account, ..s }),
        ),
        (Reading::Account, ReplyView::Answer(status, _)) => if !succeeded(status) {
            Err(RunError::Account(status))
        } else if servers.len() > 0 {
            Ok(SurveyedView::Ask(SurveyView { reading: Reading::Servers, ..s }))
        } else {
            go_on(s, servers, streamers)
        },
        (Reading::Servers, ReplyView::Targets(list)) => go_on(
            SurveyView { discovered: list, ..s },
            servers,
            streamers,
        ),
        (Reading::Person(i), ReplyView::Answer(status, body)) => if i < streamers.len() {
            match voice_result(streamers[i as int].voice_channel_ids, status, body) {
                Err(e) => Err(RunError::Discord(e)),
                Ok(voice) => go_on(
                    SurveyView {
                        individuals: s.individuals.push(
                            ObservedView { streamer: streamers[i as int], voice },
                        ),
                        ..s
                    },
                    servers,
                    streamers,
                ),
            }
        } else {
            Err(RunError::Unread)
        },
        _ => Err(RunError::Unread),
    }
}

/// Whether what a function returned is what a step comes to.
pub open spec fn survey_agrees(r: Result<Surveyed, RunError>, wanted: SurveyResult) -> bool {
    match r {
        Ok(next) => next.wf() && wanted == Ok::<SurveyedView, RunError>(next@),
        Err(e) => wanted == Err::<SurveyedView, RunError>(e),
    }
}

impl Survey {
    /// A run begins with the state.
    pub fn begin() -> (r: Survey)
        ensures
            r@ == unbegun(r.state),
            r.state.wf(),
    {
        let r = Survey {
            state: State::default(),
            discovered: Vec::new(),
            individuals: Vec::new(),
            reading: Reading::State,
        };
        assert(r@.discovered =~= Seq::<TargetView>::empty());
        assert(r@.individuals =~= Seq::<ObservedView>::empty());
        r
    }

    fn proceed(self, config: &Config) -> (r: Result<Surveyed, RunError>)
        requires
            self.state.wf(),
        ensures
            survey_agrees(
                r,
                go_on(self@, config.servers.deep_view(), config.streamers.deep_view()),
            ),
    {
        if self.individuals.len() < config.streamers.len() {
            let mut next = self;
            next.reading = Reading::Person(next.individuals.len());
            return Ok(Surveyed::Ask(next));
        }
        let seen = observe(&self.discovered, &self.individuals);
        match add_offline(seen, &self.state, &config.servers) {
            Ok(table) => Ok(Surveyed::Ready(self.state, table)),
            Err(e) => Err(RunError::Engine(e)),
        }
    }

    /// A step of a survey, given what came of the reading.
    pub fn step(self, config: &Config, reply: Reply) -> (r: Result<Surveyed, RunError>)
        requires
            self.state.wf(),
            reply.wf(),
        ensures
            survey_agrees(
                r,
                survey_step(
                    self@,
                    config.servers.deep_view(),
                    config.streamers.deep_view(),
                    reply@,
                ),
            ),
    {
        let mut next = self;
        match (next.reading, reply) {
            (Reading::State, Reply::State(state)) => {
                next.state = state;
                next.reading = Reading::Account;
                Ok(Surveyed::Ask(next))
            },
            (Reading::Account, Reply::Answer(status, _)) => if !is_success(status) {
                Err(RunError::Account(status))
            } else if config.servers.len() > 0 {
                next.reading = Reading::Servers;
                Ok(Surveyed::Ask(next))
            } else {
                next.proceed(config)
            },
            (Reading::Servers, Reply::Targets(list)) => {
                next.discovered = list;
                next.proceed(config)
            },
            (Reading::Person(i), Reply::Answer(status, body)) => {
                if i >= config.streamers.len() {
                    return Err(RunError::Unread);
                }
                let streamer = &config.streamers[i];
                match Discord::voice(streamer, status, &body) {
                    Err(e) => Err(RunError::Discord(e)),
                    Ok(voice) => {
                        let ghost before = next.individuals.deep_view();
                        let one = Observed { streamer: streamer.clone(), voice };
                        let ghost shown = one@;
                        next.individuals.push(one);
                        assert(next.individuals.deep_view() =~= before.push(shown));
                        next.proceed(config)
                    },
                }
            },
            _ => Err(RunError::Unread),
        }
    }
}

/// How many readings a run takes.
pub open spec fn readings(servers: Seq<ServerView>, streamers: Seq<StreamerView>) -> nat {
    2 + (if servers.len() > 0 {
        1nat
    } else {
        0nat
    }) + streamers.len()
}

/// A survey that has read nothing.
pub open spec fn unbegun(state: State) -> SurveyView {
    SurveyView {
        state,
        discovered: Seq::empty(),
        individuals: Seq::empty(),
        reading: Reading::State,
    }
}

/// What a survey comes to after any number of replies. Once all is read, nothing more is.
pub open spec fn survey_course(
    at: SurveyView,
    servers: Seq<ServerView>,
    streamers: Seq<StreamerView>,
    replies: Seq<ReplyView>,
) -> SurveyResult
    decreases replies.len(),
{
    if replies.len() == 0 {
        Ok(SurveyedView::Ask(at))
    } else {
        match survey_course(at, servers, streamers, replies.drop_last()) {
            Ok(SurveyedView::Ask(s)) => survey_step(s, servers, streamers, replies.last()),
            other => other,
        }
    }
}

/// Which reading comes after so many replies.
spec fn in_turn(
    s: SurveyView,
    servers: Seq<ServerView>,
    streamers: Seq<StreamerView>,
    k: nat,
) -> bool {
    let first = readings(servers, streamers) - streamers.len();
    match s.reading {
        Reading::State => k == 0 && s.individuals.len() == 0,
        Reading::Account => k == 1 && s.individuals.len() == 0,
        Reading::Servers => k == 2 && servers.len() > 0 && s.individuals.len() == 0,
        Reading::Person(i) => i == s.individuals.len() && i < streamers.len() && k == first + i,
    }
}

proof fn lemma_survey_in_turn(
    state: State,
    servers: Seq<ServerView>,
    streamers: Seq<StreamerView>,
    replies: Seq<ReplyView>,
)
    requires
        streamers.len() <= usize::MAX,
    ensures
        ({
            let n = readings(servers, streamers);
            match survey_course(unbegun(state), servers, streamers, replies) {
                Ok(SurveyedView::Ask(s)) => {
                    &&& in_turn(s, servers, streamers, replies.len())
                    &&& replies.len() < n
                    &&& forall|i: int| 0 <= i < replies.len() ==> !(#[trigger] replies[i] is Failed)
                    &&& replies.len() > 0 ==> replies[0] == ReplyView::State(s.state)
                },
                Ok(SurveyedView::Ready(kept, table)) => {
                    &&& replies.len() >= n
                    &&& forall|i: int| 0 <= i < n ==> !(#[trigger] replies[i] is Failed)
                    &&& replies[0] == ReplyView::State(kept)
                },
                Err(_) => true,
            }
        }),
    decreases replies.len(),
{
    if replies.len() > 0 {
        let front = replies.drop_last();
        lemma_survey_in_turn(state, servers, streamers, front);
        assert forall|i: int| 0 <= i < front.len() implies front[i] == #[trigger] replies[i] by {}
    }
}

/// No target is gone about before everything was read: the state, the account, every server and
/// every person, and not one of these readings failed. A run in which one fails has asked for
/// nothing but readings, so nothing was saved and nothing was posted.
pub proof fn law_everything_is_read_first(
    state: State,
    servers: Seq<ServerView>,
    streamers: Seq<StreamerView>,
    replies: Seq<ReplyView>,
)
    requires
        streamers.len() <= usize::MAX,
        survey_course(unbegun(state), servers, streamers, replies) is Ok,
        survey_course(unbegun(state), servers, streamers, replies)->Ok_0 is Ready,
    ensures
        replies.len() >= readings(servers, streamers),
        forall|i: int|
            0 <= i < readings(servers, streamers) ==> !(#[trigger] replies[i] is Failed),
        replies[0] == ReplyView::State(
            survey_course(unbegun(state), servers, streamers, replies)->Ok_0->Ready_0,
        ),
{
    lemma_survey_in_turn(state, servers, streamers, replies);
}

/// A reading that fails ends the run, whatever comes behind it.
pub proof fn law_failed_reading_ends_a_run(
    state: State,
    servers: Seq<ServerView>,
    streamers: Seq<StreamerView>,
    replies: Seq<ReplyView>,
    k: int,
)
    requires
        streamers.len() <= usize::MAX,
        0 <= k < replies.len(),
        k < readings(servers, streamers),
        replies[k] is Failed,
    ensures
        survey_course(unbegun(state), servers, streamers, replies) is Err,
{
    lemma_survey_in_turn(state, servers, streamers, replies);
}

} // verus!
