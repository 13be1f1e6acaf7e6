//! Which configurations are accepted, and what is said of the others.
use vstd::prelude::*;
use vstd::string::*;

use crate::activity::is_snowflake;
use crate::config::{
    config_error, config_message, server_error, servers_error, streamer_error, streamers_error,
    target_key, Config, ConfigError, ServerView, StreamerView,
};
use crate::text::space;
use crate::url::UrlView;

verus! {

/// Whether an address is where an instance answers: reached in confidence, and nothing behind
/// its name.
pub open spec fn is_instance(url: UrlView) -> bool {
    &&& url.scheme == "https"@
    &&& url.host is Some
    &&& url.username.len() == 0
    &&& url.password is None
    &&& url.path == "/"@
    &&& url.query is None
    &&& url.fragment is None
}

/// Whether all of some ids are ids, and there is one.
pub open spec fn are_ids(ids: Seq<Seq<char>>) -> bool {
    &&& 0 < ids.len()
    &&& forall|k: int| 0 <= k < ids.len() ==> is_snowflake(#[trigger] ids[k])
}

pub open spec fn is_id_if_any(id: Option<Seq<char>>) -> bool {
    id is None || is_snowflake(id->0)
}

/// Whether a text says something, in at most so many characters.
pub open spec fn says_something(text: Seq<char>, most: int) -> bool {
    &&& text.len() <= most
    &&& exists|k: int| 0 <= k < text.len() && !space(#[trigger] text[k])
}

pub open spec fn is_good_server(s: ServerView) -> bool {
    &&& is_snowflake(s.guild_id)
    &&& is_id_if_any(s.share_channel_id)
    &&& are_ids(s.voice_channel_ids)
    &&& is_id_if_any(s.announcement_channel_id)
    &&& s.screenshots ==> s.announcement_channel_id is Some
    &&& says_something(s.default_title, 200)
}

pub open spec fn is_good_streamer(s: StreamerView) -> bool {
    &&& is_snowflake(s.guild_id)
    &&& is_snowflake(s.user_id)
    &&& are_ids(s.voice_channel_ids)
    &&& is_id_if_any(s.announcement_channel_id)
    &&& s.screenshots ==> s.announcement_channel_id is Some
    &&& says_something(s.display_name, 80)
    &&& says_something(s.default_title, 200)
}

pub open spec fn are_good_servers(servers: Seq<ServerView>) -> bool {
    &&& forall|i: int| 0 <= i < servers.len() ==> is_good_server(#[trigger] servers[i])
    &&& forall|i: int, j: int|
        0 <= i < j < servers.len() ==> (#[trigger] servers[i]).guild_id != (
        #[trigger] servers[j]).guild_id
}

pub open spec fn are_good_streamers(
    servers: Seq<ServerView>,
    streamers: Seq<StreamerView>,
) -> bool {
    &&& forall|i: int| 0 <= i < streamers.len() ==> is_good_streamer(#[trigger] streamers[i])
    &&& forall|i: int, j: int|
        0 <= i < servers.len() && 0 <= j < streamers.len() ==> (#[trigger] servers[i]).guild_id
            != (#[trigger] streamers[j]).guild_id
    &&& forall|i: int, j: int|
        0 <= i < j < streamers.len() ==> (#[trigger] streamers[i]).guild_id + seq![':']
            + streamers[i].user_id != (#[trigger] streamers[j]).guild_id + seq![':']
            + streamers[j].user_id
}

proof fn lemma_good_server(servers: Seq<ServerView>, i: int)
    requires
        0 <= i < servers.len(),
    ensures
        server_error(servers, i) is None <==> is_good_server(servers[i]) && (forall|j: int|
            0 <= j < i ==> (#[trigger] servers[j]).guild_id != servers[i].guild_id),
{
}

proof fn lemma_good_servers(servers: Seq<ServerView>, n: int)
    requires
        0 <= n <= servers.len(),
    ensures
        servers_error(servers, n) is None <==> forall|i: int|
            0 <= i < n ==> server_error(servers, i) is None,
    decreases n,
{
    if n > 0 {
        lemma_good_servers(servers, n - 1);
        if servers_error(servers, n) is None {
            assert(server_error(servers, n - 1) is None);
        }
    }
}

proof fn lemma_good_streamer(servers: Seq<ServerView>, streamers: Seq<StreamerView>, i: int)
    requires
        0 <= i < streamers.len(),
    ensures
        streamer_error(servers, streamers, i) is None <==> is_good_streamer(streamers[i]) && (
        forall|j: int|
            0 <= j < servers.len() ==> (#[trigger] servers[j]).guild_id != streamers[i].guild_id)
            && (forall|j: int|
            0 <= j < i ==> target_key((#[trigger] streamers[j]).guild_id, streamers[j].user_id)
                != target_key(streamers[i].guild_id, streamers[i].user_id)),
{
}

proof fn lemma_good_streamers(servers: Seq<ServerView>, streamers: Seq<StreamerView>, n: int)
    requires
        0 <= n <= streamers.len(),
    ensures
        streamers_error(servers, streamers, n) is None <==> forall|i: int|
            0 <= i < n ==> streamer_error(servers, streamers, i) is None,
    decreases n,
{
    if n > 0 {
        lemma_good_streamers(servers, streamers, n - 1);
        if streamers_error(servers, streamers, n) is None {
            assert(streamer_error(servers, streamers, n - 1) is None);
        }
    }
}

/// A configuration is accepted where its instance, its visibility, its intervals and each of its
/// servers and streamers are good, no two of them are the same, and there are some and not too
/// many; no other is.
pub proof fn law_good_configurations_are_accepted(config: Config, url: Option<UrlView>)
    ensures
        ({
            let servers = config.servers.deep_view();
            let streamers = config.streamers.deep_view();
            let visibility = config.mastodon.visibility@;
            config_error(config, url) is None <==> {
                &&& url is Some
                &&& is_instance(url->0)
                &&& visibility == "public"@ || visibility == "unlisted"@ || visibility
                    == "private"@
                &&& 0 < servers.len() + streamers.len()
                &&& servers.len() <= 20
                &&& streamers.len() <= 50
                &&& 5 <= config.screenshot_interval_minutes <= 1440
                &&& 30 <= config.activity_update_interval_minutes <= 1440
                &&& are_good_servers(servers)
                &&& are_good_streamers(servers, streamers)
            }
        }),
{
    let servers = config.servers.deep_view();
    let streamers = config.streamers.deep_view();
    let n = servers.len() as int;
    let m = streamers.len() as int;
    lemma_good_servers(servers, n);
    lemma_good_streamers(servers, streamers, m);
    assert forall|i: int| 0 <= i < n implies (#[trigger] server_error(servers, i) is None
        <==> is_good_server(servers[i]) && (forall|j: int|
        0 <= j < i ==> (#[trigger] servers[j]).guild_id != servers[i].guild_id)) by {
        lemma_good_server(servers, i);
    }
    assert forall|i: int| 0 <= i < m implies (#[trigger] streamer_error(servers, streamers, i) is None
        <==> is_good_streamer(streamers[i]) && (forall|j: int|
        0 <= j < servers.len() ==> (#[trigger] servers[j]).guild_id != streamers[i].guild_id) && (
    forall|j: int|
        0 <= j < i ==> target_key((#[trigger] streamers[j]).guild_id, streamers[j].user_id)
            != target_key(streamers[i].guild_id, streamers[i].user_id))) by {
        lemma_good_streamer(servers, streamers, i);
    }
    if servers_error(servers, n) is None {
        assert forall|i: int| 0 <= i < n implies is_good_server(#[trigger] servers[i]) by {
            assert(server_error(servers, i) is None);
        }
        assert forall|i: int, j: int| 0 <= i < j < n implies (#[trigger] servers[i]).guild_id != (
        #[trigger] servers[j]).guild_id by {
            assert(server_error(servers, j) is None);
        }
    }
    if are_good_servers(servers) {
        assert forall|i: int| 0 <= i < n implies server_error(servers, i) is None by {
            assert(is_good_server(servers[i]));
        }
    }
    if streamers_error(servers, streamers, m) is None {
        assert forall|i: int| 0 <= i < m implies is_good_streamer(#[trigger] streamers[i]) by {
            assert(streamer_error(servers, streamers, i) is None);
        }
        assert forall|i: int, j: int| 0 <= i < n && 0 <= j < m implies (
        #[trigger] servers[i]).guild_id != (#[trigger] streamers[j]).guild_id by {
            assert(streamer_error(servers, streamers, j) is None);
        }
        assert forall|i: int, j: int| 0 <= i < j < m implies (#[trigger] streamers[i]).guild_id
            + seq![':'] + streamers[i].user_id != (#[trigger] streamers[j]).guild_id + seq![':']
            + streamers[j].user_id by {
            assert(streamer_error(servers, streamers, j) is None);
        }
    }
    if are_good_streamers(servers, streamers) {
        assert forall|i: int| 0 <= i < m implies streamer_error(servers, streamers, i) is None by {
            assert(is_good_streamer(streamers[i]));
            assert forall|j: int| 0 <= j < i implies target_key(
                (#[trigger] streamers[j]).guild_id,
                streamers[j].user_id,
            ) != target_key(streamers[i].guild_id, streamers[i].user_id) by {
                assert(streamers[j].guild_id + seq![':'] + streamers[j].user_id
                    != streamers[i].guild_id + seq![':'] + streamers[i].user_id);
            }
        }
    }
}

/// Whether something in a configuration is wrong in this way.
pub open spec fn is_wrong(config: Config, url: Option<UrlView>, e: ConfigError) -> bool {
    let servers = config.servers.deep_view();
    let streamers = config.streamers.deep_view();
    match e {
        ConfigError::BaseUrl => url is None,
        ConfigError::Insecure => url matches Some(u) && (u.scheme != "https"@ || u.host is None),
        ConfigError::NoOrigin => url matches Some(u) && !is_instance(u),
        ConfigError::Visibility => config.mastodon.visibility@ != "public"@
            && config.mastodon.visibility@ != "unlisted"@ && config.mastodon.visibility@
            != "private"@,
        ConfigError::NoTargets => servers.len() + streamers.len() == 0,
        ConfigError::TooMany => servers.len() > 20 || streamers.len() > 50,
        ConfigError::ScreenshotInterval => config.screenshot_interval_minutes < 5
            || config.screenshot_interval_minutes > 1440,
        ConfigError::ActivityInterval => config.activity_update_interval_minutes < 30
            || config.activity_update_interval_minutes > 1440,
        _ => is_wrong_server(servers, e) || is_wrong_streamer(servers, streamers, e),
    }
}

pub open spec fn is_wrong_server(servers: Seq<ServerView>, e: ConfigError) -> bool {
    exists|i: int| 0 <= i < servers.len() && server_is_wrong(#[trigger] servers[i], servers, i, e)
}

pub open spec fn server_is_wrong(
    s: ServerView,
    servers: Seq<ServerView>,
    i: int,
    e: ConfigError,
) -> bool {
    match e {
        ConfigError::DuplicateServer => exists|j: int|
            0 <= j < i && (#[trigger] servers[j]).guild_id == s.guild_id,
        ConfigError::GuildId => !is_snowflake(s.guild_id),
        ConfigError::ShareChannel => !is_id_if_any(s.share_channel_id),
        ConfigError::VoiceChannels => !are_ids(s.voice_channel_ids),
        ConfigError::AnnouncementChannel => !is_id_if_any(s.announcement_channel_id),
        ConfigError::ScreenshotsNeedChannel => s.screenshots && s.announcement_channel_id is None,
        ConfigError::DefaultTitle => !says_something(s.default_title, 200),
        _ => false,
    }
}

pub open spec fn is_wrong_streamer(
    servers: Seq<ServerView>,
    streamers: Seq<StreamerView>,
    e: ConfigError,
) -> bool {
    exists|i: int|
        0 <= i < streamers.len() && streamer_is_wrong(
            #[trigger] streamers[i],
            servers,
            streamers,
            i,
            e,
        )
}

pub open spec fn streamer_is_wrong(
    s: StreamerView,
    servers: Seq<ServerView>,
    streamers: Seq<StreamerView>,
    i: int,
    e: ConfigError,
) -> bool {
    match e {
        ConfigError::BothWays => exists|j: int|
            0 <= j < servers.len() && (#[trigger] servers[j]).guild_id == s.guild_id,
        ConfigError::DuplicateStreamer => exists|j: int|
            0 <= j < i && (#[trigger] streamers[j]).guild_id + seq![':'] + streamers[j].user_id
                == s.guild_id + seq![':'] + s.user_id,
        ConfigError::StreamerIds => !is_snowflake(s.guild_id) || !is_snowflake(s.user_id),
        ConfigError::VoiceChannels => !are_ids(s.voice_channel_ids),
        ConfigError::AnnouncementChannel => !is_id_if_any(s.announcement_channel_id),
        ConfigError::ScreenshotsNeedChannel => s.screenshots && s.announcement_channel_id is None,
        ConfigError::DisplayName => !says_something(s.display_name, 80),
        ConfigError::DefaultTitle => !says_something(s.default_title, 200),
        _ => false,
    }
}

proof fn lemma_wrong_server(servers: Seq<ServerView>, n: int)
    requires
        0 <= n <= servers.len(),
        servers_error(servers, n) is Some,
    ensures
        is_wrong_server(servers, servers_error(servers, n)->0),
        !(servers_error(servers, n)->0 is BaseUrl),
        !(servers_error(servers, n)->0 is Insecure),
        !(servers_error(servers, n)->0 is NoOrigin),
        !(servers_error(servers, n)->0 is Visibility),
        !(servers_error(servers, n)->0 is NoTargets),
        !(servers_error(servers, n)->0 is TooMany),
        !(servers_error(servers, n)->0 is ScreenshotInterval),
        !(servers_error(servers, n)->0 is ActivityInterval),
    decreases n,
{
    if servers_error(servers, n - 1) is Some {
        lemma_wrong_server(servers, n - 1);
    } else {
        assert(server_is_wrong(servers[n - 1], servers, n - 1, server_error(servers, n - 1)->0));
    }
}

proof fn lemma_wrong_streamer(servers: Seq<ServerView>, streamers: Seq<StreamerView>, n: int)
    requires
        0 <= n <= streamers.len(),
        streamers_error(servers, streamers, n) is Some,
    ensures
        is_wrong_streamer(servers, streamers, streamers_error(servers, streamers, n)->0),
        !(streamers_error(servers, streamers, n)->0 is BaseUrl),
        !(streamers_error(servers, streamers, n)->0 is Insecure),
        !(streamers_error(servers, streamers, n)->0 is NoOrigin),
        !(streamers_error(servers, streamers, n)->0 is Visibility),
        !(streamers_error(servers, streamers, n)->0 is NoTargets),
        !(streamers_error(servers, streamers, n)->0 is TooMany),
        !(streamers_error(servers, streamers, n)->0 is ScreenshotInterval),
        !(streamers_error(servers, streamers, n)->0 is ActivityInterval),
    decreases n,
{
    if streamers_error(servers, streamers, n - 1) is Some {
        lemma_wrong_streamer(servers, streamers, n - 1);
    } else {
        let e = streamer_error(servers, streamers, n - 1)->0;
        let s = streamers[n - 1];
        if e is DuplicateStreamer {
            let j = choose|j: int|
                0 <= j < n - 1 && target_key((#[trigger] streamers[j]).guild_id, streamers[j].user_id)
                    == target_key(s.guild_id, s.user_id);
            assert(streamers[j].guild_id + seq![':'] + streamers[j].user_id == s.guild_id
                + seq![':'] + s.user_id);
        }
        assert(streamer_is_wrong(s, servers, streamers, n - 1, e));
    }
}

/// What is said to be wrong with a configuration is wrong with it.
pub proof fn law_what_is_called_wrong_is_wrong(config: Config, url: Option<UrlView>)
    ensures
        config_error(config, url) matches Some(e) ==> is_wrong(config, url, e),
{
    let servers = config.servers.deep_view();
    let streamers = config.streamers.deep_view();
    if servers_error(servers, servers.len() as int) is Some {
        lemma_wrong_server(servers, servers.len() as int);
    }
    if streamers_error(servers, streamers, streamers.len() as int) is Some {
        lemma_wrong_streamer(servers, streamers, streamers.len() as int);
    }
}

/// What is wrong is said in words that name it, and the bounds that it breaks.
pub proof fn law_errors_name_what_is_wrong(e: ConfigError)
    ensures
        config_message(e) == match e {
            ConfigError::BaseUrl => "Mastodon base_url is not a URL"@,
            ConfigError::Insecure => "Mastodon base_url must use HTTPS"@,
            ConfigError::NoOrigin => "Mastodon base_url must be an origin without credentials, path, query or fragment"@,
            ConfigError::Visibility => "visibility must be public, unlisted or private"@,
            ConfigError::NoTargets => "Configure at least one server or streamer"@,
            ConfigError::TooMany => "At most 50 individual streamers and 20 servers are supported"@,
            ConfigError::ScreenshotInterval => "screenshot interval must be 5–1440 minutes"@,
            ConfigError::ActivityInterval => "Activity update interval must be 30–1440 minutes"@,
            ConfigError::DuplicateServer => "Duplicate server"@,
            ConfigError::GuildId => "Invalid guild ID"@,
            ConfigError::ShareChannel => "Invalid share channel ID"@,
            ConfigError::VoiceChannels => "Explicit voice channel IDs are required"@,
            ConfigError::AnnouncementChannel => "Invalid announcement channel ID"@,
            ConfigError::ScreenshotsNeedChannel => "Screenshots require an announcement channel"@,
            ConfigError::DefaultTitle => "default_title must be 1–200 characters"@,
            ConfigError::BothWays => "Use either server discovery or individual streamers for each guild"@,
            ConfigError::DuplicateStreamer => "Duplicate streamer"@,
            ConfigError::StreamerIds => "Guild/user IDs must be numeric Discord IDs"@,
            ConfigError::DisplayName => "display_name must be 1–80 characters"@,
        },
{
}

} // verus!
