//! The configuration and its rules.
use vstd::prelude::*;
use vstd::string::*;

use crate::activity::{is_snowflake, snowflake};
use crate::discord::{clone_text, clone_texts};
use crate::text::{blank, is_blank, same};
use crate::url::{parse_url, url_parts, Url, UrlView};

verus! {

/// The whole configuration.
pub struct Config {
    pub mastodon: Mastodon,
    pub streamers: Vec<Streamer>,
    pub servers: Vec<Server>,
    pub screenshot_interval_minutes: u64,
    pub activity_update_interval_minutes: u64,
}

/// A Discord server whose voice channels are watched.
pub struct Server {
    pub guild_id: String,
    pub use_activity: bool,
    pub voice_channel_ids: Vec<String>,
    pub default_title: String,
    pub announcement_channel_id: Option<String>,
    pub share_channel_id: Option<String>,
    pub screenshots: bool,
}

/// The account that announcements are posted to.
pub struct Mastodon {
    pub base_url: String,
    pub visibility: String,
}

/// A person whose streams are watched.
pub struct Streamer {
    pub guild_id: String,
    pub user_id: String,
    pub display_name: String,
    /// Only these voice channels are announced. An empty list is invalid.
    pub voice_channel_ids: Vec<String>,
    pub default_title: String,
    pub announcement_channel_id: Option<String>,
    pub screenshots: bool,
}

pub struct StreamerView {
    pub guild_id: Seq<char>,
    pub user_id: Seq<char>,
    pub display_name: Seq<char>,
    pub voice_channel_ids: Seq<Seq<char>>,
    pub default_title: Seq<char>,
    pub announcement_channel_id: Option<Seq<char>>,
    pub screenshots: bool,
}

impl View for Streamer {
    type V = StreamerView;

    open spec fn view(&self) -> StreamerView {
        StreamerView {
            guild_id: self.guild_id@,
            user_id: self.user_id@,
            display_name: self.display_name@,
            voice_channel_ids: self.voice_channel_ids.deep_view(),
            default_title: self.default_title@,
            announcement_channel_id: self.announcement_channel_id.deep_view(),
            screenshots: self.screenshots,
        }
    }
}

impl DeepView for Streamer {
    type V = StreamerView;

    open spec fn deep_view(&self) -> StreamerView {
        self@
    }
}

impl Clone for Streamer {
    fn clone(&self) -> (r: Self)
        ensures
            r@ == self@,
    {
        Streamer {
            guild_id: self.guild_id.clone(),
            user_id: self.user_id.clone(),
            display_name: self.display_name.clone(),
            voice_channel_ids: clone_texts(&self.voice_channel_ids),
            default_title: self.default_title.clone(),
            announcement_channel_id: clone_text(&self.announcement_channel_id),
            screenshots: self.screenshots,
        }
    }
}

pub struct ServerView {
    pub guild_id: Seq<char>,
    pub use_activity: bool,
    pub voice_channel_ids: Seq<Seq<char>>,
    pub default_title: Seq<char>,
    pub announcement_channel_id: Option<Seq<char>>,
    pub share_channel_id: Option<Seq<char>>,
    pub screenshots: bool,
}

impl View for Server {
    type V = ServerView;

    open spec fn view(&self) -> ServerView {
        ServerView {
            guild_id: self.guild_id@,
            use_activity: self.use_activity,
            voice_channel_ids: self.voice_channel_ids.deep_view(),
            default_title: self.default_title@,
            announcement_channel_id: self.announcement_channel_id.deep_view(),
            share_channel_id: self.share_channel_id.deep_view(),
            screenshots: self.screenshots,
        }
    }
}

impl DeepView for Server {
    type V = ServerView;

    open spec fn deep_view(&self) -> ServerView {
        self@
    }
}

/// The interval between posts of one target where none is configured, in minutes.
pub fn interval() -> (r: u64)
    ensures
        r == 30,
{
    30
}

/// The visibility of posts where none is configured.
pub fn visibility() -> (r: String)
    ensures
        r@ == "unlisted"@,
{
    "unlisted".to_owned()
}

/// The name of a target: the server and the person.
pub open spec fn target_key(guild: Seq<char>, user: Seq<char>) -> Seq<char> {
    guild + seq![':'] + user
}

/// The name of a target.
pub fn key_of(guild: &str, user: &str) -> (r: String)
    ensures
        r@ == target_key(guild@, user@),
{
    let mut out = guild.to_owned();
    out.push(':');
    out.append(user);
    assert(out@ =~= target_key(guild@, user@));
    out
}

impl Streamer {
    pub fn key(&self) -> (r: String)
        ensures
            r@ == target_key(self.guild_id@, self.user_id@),
    {
        key_of(self.guild_id.as_str(), self.user_id.as_str())
    }
}

/// Why a configuration is refused.
#[derive(Clone, Copy, Debug, PartialEq, Eq, Structural)]
pub enum ConfigError {
    BaseUrl,
    Insecure,
    NoOrigin,
    Visibility,
    NoTargets,
    TooMany,
    ScreenshotInterval,
    ActivityInterval,
    DuplicateServer,
    GuildId,
    ShareChannel,
    VoiceChannels,
    AnnouncementChannel,
    ScreenshotsNeedChannel,
    DefaultTitle,
    BothWays,
    DuplicateStreamer,
    StreamerIds,
    DisplayName,
}

/// What is said of a configuration that is refused.
pub open spec fn config_message(e: ConfigError) -> Seq<char> {
    match e {
        ConfigError::BaseUrl => "Mastodon base_url is not a URL"@,
        ConfigError::Insecure => "Mastodon base_url must use HTTPS"@,
        ConfigError::NoOrigin => "Mastodon base_url must be an origin without credentials, path, query or fragment"@,
        ConfigError::Visibility => "visibility must be public, unlisted or private"@,
        ConfigError::NoTargets => "Configure at least one server or streamer"@,
        ConfigError::TooMany => "At most 50 individual streamers and 20 servers are supported"@,
        ConfigError::ScreenshotInterval => "screenshot interval must be 5–1440 minutes"@,
        ConfigError::ActivityInterval => "Activity update interval must be 30–1440 minutes"@,
        ConfigError::DuplicateServer => "Duplicate server"@,
        ConfigError::GuildId => "Invalid guild ID"@,
        ConfigError::ShareChannel => "Invalid share channel ID"@,
        ConfigError::VoiceChannels => "Explicit voice channel IDs are required"@,
        ConfigError::AnnouncementChannel => "Invalid announcement channel ID"@,
        ConfigError::ScreenshotsNeedChannel => "Screenshots require an announcement channel"@,
        ConfigError::DefaultTitle => "default_title must be 1–200 characters"@,
        ConfigError::BothWays => "Use either server discovery or individual streamers for each guild"@,
        ConfigError::DuplicateStreamer => "Duplicate streamer"@,
        ConfigError::StreamerIds => "Guild/user IDs must be numeric Discord IDs"@,
        ConfigError::DisplayName => "display_name must be 1–80 characters"@,
    }
}

impl ConfigError {
    pub fn message(&self) -> (r: &'static str)
        ensures
            r@ == config_message(*self),
    {
        match self {
            ConfigError::BaseUrl => "Mastodon base_url is not a URL",
            ConfigError::Insecure => "Mastodon base_url must use HTTPS",
            ConfigError::NoOrigin => "Mastodon base_url must be an origin without credentials, path, query or fragment",
            ConfigError::Visibility => "visibility must be public, unlisted or private",
            ConfigError::NoTargets => "Configure at least one server or streamer",
            ConfigError::TooMany => "At most 50 individual streamers and 20 servers are supported",
            ConfigError::ScreenshotInterval => "screenshot interval must be 5–1440 minutes",
            ConfigError::ActivityInterval => "Activity update interval must be 30–1440 minutes",
            ConfigError::DuplicateServer => "Duplicate server",
            ConfigError::GuildId => "Invalid guild ID",
            ConfigError::ShareChannel => "Invalid share channel ID",
            ConfigError::VoiceChannels => "Explicit voice channel IDs are required",
            ConfigError::AnnouncementChannel => "Invalid announcement channel ID",
            ConfigError::ScreenshotsNeedChannel => "Screenshots require an announcement channel",
            ConfigError::DefaultTitle => "default_title must be 1–200 characters",
            ConfigError::BothWays => "Use either server discovery or individual streamers for each guild",
            ConfigError::DuplicateStreamer => "Duplicate streamer",
            ConfigError::StreamerIds => "Guild/user IDs must be numeric Discord IDs",
            ConfigError::DisplayName => "display_name must be 1–80 characters",
        }
    }
}

/// An HTTPS URL of a host.
pub open spec fn secure(url: UrlView) -> bool {
    url.scheme == "https"@ && url.host is Some
}

/// A URL that says nothing but a scheme, a host and a port.
pub open spec fn bare_origin(url: UrlView) -> bool {
    &&& url.username.len() == 0
    &&& url.password is None
    &&& url.query is None
    &&& url.fragment is None
    &&& url.path == "/"@
}

pub open spec fn known_visibility(name: Seq<char>) -> bool {
    name == "public"@ || name == "unlisted"@ || name == "private"@
}

/// A channel that is absent or named by an ID.
pub open spec fn optional_id(id: Option<Seq<char>>) -> bool {
    id matches Some(text) ==> is_snowflake(text)
}

/// At least one ID, and nothing but IDs.
pub open spec fn some_ids(ids: Seq<Seq<char>>) -> bool {
    ids.len() > 0 && forall|i: int| 0 <= i < ids.len() ==> is_snowflake(#[trigger] ids[i])
}

/// A text that says something in at most `max` characters.
pub open spec fn worded(text: Seq<char>, max: nat) -> bool {
    !blank(text) && text.len() <= max
}

/// What is wrong with the server at `i`, given those before it.
pub open spec fn server_error(servers: Seq<ServerView>, i: int) -> Option<ConfigError> {
    let s = servers[i];
    if exists|j: int| 0 <= j < i && #[trigger] servers[j].guild_id == s.guild_id {
        Some(ConfigError::DuplicateServer)
    } else if !is_snowflake(s.guild_id) {
        Some(ConfigError::GuildId)
    } else if !optional_id(s.share_channel_id) {
        Some(ConfigError::ShareChannel)
    } else if !some_ids(s.voice_channel_ids) {
        Some(ConfigError::VoiceChannels)
    } else if !optional_id(s.announcement_channel_id) {
        Some(ConfigError::AnnouncementChannel)
    } else if s.screenshots && s.announcement_channel_id is None {
        Some(ConfigError::ScreenshotsNeedChannel)
    } else if !worded(s.default_title, 200) {
        Some(ConfigError::DefaultTitle)
    } else {
        None
    }
}

/// What is wrong with the streamer at `i`, given the servers and the streamers before it.
pub open spec fn streamer_error(
    servers: Seq<ServerView>,
    streamers: Seq<StreamerView>,
    i: int,
) -> Option<ConfigError> {
    let s = streamers[i];
    if exists|j: int| 0 <= j < servers.len() && #[trigger] servers[j].guild_id == s.guild_id {
        Some(ConfigError::BothWays)
    } else if exists|j: int|
        0 <= j < i && target_key(
            (#[trigger] streamers[j]).guild_id,
            streamers[j].user_id,
        ) == target_key(s.guild_id, s.user_id) {
        Some(ConfigError::DuplicateStreamer)
    } else if !is_snowflake(s.guild_id) || !is_snowflake(s.user_id) {
        Some(ConfigError::StreamerIds)
    } else if !some_ids(s.voice_channel_ids) {
        Some(ConfigError::VoiceChannels)
    } else if !optional_id(s.announcement_channel_id) {
        Some(ConfigError::AnnouncementChannel)
    } else if s.screenshots && s.announcement_channel_id is None {
        Some(ConfigError::ScreenshotsNeedChannel)
    } else if !worded(s.display_name, 80) {
        Some(ConfigError::DisplayName)
    } else if !worded(s.default_title, 200) {
        Some(ConfigError::DefaultTitle)
    } else {
        None
    }
}

/// The first thing that is wrong with the servers before `n`.
pub open spec fn servers_error(servers: Seq<ServerView>, n: int) -> Option<ConfigError>
    decreases n,
{
    if n <= 0 {
        None
    } else if servers_error(servers, n - 1) is Some {
        servers_error(servers, n - 1)
    } else {
        server_error(servers, n - 1)
    }
}

/// The first thing that is wrong with the streamers before `n`.
pub open spec fn streamers_error(
    servers: Seq<ServerView>,
    streamers: Seq<StreamerView>,
    n: int,
) -> Option<ConfigError>
    decreases n,
{
    if n <= 0 {
        None
    } else if streamers_error(servers, streamers, n - 1) is Some {
        streamers_error(servers, streamers, n - 1)
    } else {
        streamer_error(servers, streamers, n - 1)
    }
}

/// The first thing that is wrong with a configuration, given its base URL taken apart.
pub open spec fn config_error(config: Config, url: Option<UrlView>) -> Option<ConfigError> {
    let servers = config.servers.deep_view();
    let streamers = config.streamers.deep_view();
    if url is None {
        Some(ConfigError::BaseUrl)
    } else if !secure(url->0) {
        Some(ConfigError::Insecure)
    } else if !bare_origin(url->0) {
        Some(ConfigError::NoOrigin)
    } else if !known_visibility(config.mastodon.visibility@) {
        Some(ConfigError::Visibility)
    } else if streamers.len() == 0 && servers.len() == 0 {
        Some(ConfigError::NoTargets)
    } else if streamers.len() > 50 || servers.len() > 20 {
        Some(ConfigError::TooMany)
    } else if !(5 <= config.screenshot_interval_minutes <= 1440) {
        Some(ConfigError::ScreenshotInterval)
    } else if !(30 <= config.activity_update_interval_minutes <= 1440) {
        Some(ConfigError::ActivityInterval)
    } else if servers_error(servers, servers.len() as int) is Some {
        servers_error(servers, servers.len() as int)
    } else {
        streamers_error(servers, streamers, streamers.len() as int)
    }
}

fn has_optional_id(id: &Option<String>) -> (r: bool)
    ensures
        r == optional_id(id.deep_view()),
{
    match id {
        Some(text) => snowflake(text.as_str()),
        None => true,
    }
}

fn has_some_ids(ids: &Vec<String>) -> (r: bool)
    ensures
        r == some_ids(ids.deep_view()),
{
    let ghost views = ids.deep_view();
    if ids.len() == 0 {
        return false;
    }
    for i in 0..ids.len()
        invariant
            views == ids.deep_view(),
            forall|j: int| 0 <= j < i ==> is_snowflake(#[trigger] views[j]),
    {
        if !snowflake(ids[i].as_str()) {
            assert(!is_snowflake(views[i as int]));
            return false;
        }
    }
    true
}

fn is_worded(text: &str, max: usize) -> (r: bool)
    ensures
        r == worded(text@, max as nat),
{
    !is_blank(text) && text.unicode_len() <= max
}

fn check_server(servers: &Vec<Server>, i: usize) -> (r: Option<ConfigError>)
    requires
        i < servers.len(),
    ensures
        r == server_error(servers.deep_view(), i as int),
{
    let s = &servers[i];
    let ghost views = servers.deep_view();
    for j in 0..i
        invariant
            i < servers.len(),
            s == &servers[i as int],
            views == servers.deep_view(),
            forall|k: int| 0 <= k < j ==> (#[trigger] views[k]).guild_id != s.guild_id@,
    {
        if same(servers[j].guild_id.as_str(), s.guild_id.as_str()) {
            assert(views[j as int].guild_id == views[i as int].guild_id);
            return Some(ConfigError::DuplicateServer);
        }
    }
    if !snowflake(s.guild_id.as_str()) {
        Some(ConfigError::GuildId)
    } else if !has_optional_id(&s.share_channel_id) {
        Some(ConfigError::ShareChannel)
    } else if !has_some_ids(&s.voice_channel_ids) {
        Some(ConfigError::VoiceChannels)
    } else if !has_optional_id(&s.announcement_channel_id) {
        Some(ConfigError::AnnouncementChannel)
    } else if s.screenshots && s.announcement_channel_id.is_none() {
        Some(ConfigError::ScreenshotsNeedChannel)
    } else if !is_worded(s.default_title.as_str(), 200) {
        Some(ConfigError::DefaultTitle)
    } else {
        None
    }
}

fn check_streamer(servers: &Vec<Server>, streamers: &Vec<Streamer>, i: usize) -> (r: Option<
    ConfigError,
>)
    requires
        i < streamers.len(),
    ensures
        r == streamer_error(servers.deep_view(), streamers.deep_view(), i as int),
{
    let s = &streamers[i];
    let ghost guilds = servers.deep_view();
    let ghost views = streamers.deep_view();
    for j in 0..servers.len()
        invariant
            i < streamers.len(),
            s == &streamers[i as int],
            guilds == servers.deep_view(),
            views == streamers.deep_view(),
            forall|k: int| 0 <= k < j ==> (#[trigger] guilds[k]).guild_id != s.guild_id@,
    {
        if same(servers[j].guild_id.as_str(), s.guild_id.as_str()) {
            assert(guilds[j as int].guild_id == views[i as int].guild_id);
            return Some(ConfigError::BothWays);
        }
    }
    let key = s.key();
    for j in 0..i
        invariant
            i < streamers.len(),
            s == &streamers[i as int],
            guilds == servers.deep_view(),
            views == streamers.deep_view(),
            key@ == target_key(s.guild_id@, s.user_id@),
            forall|k: int| 0 <= k < guilds.len() ==> (#[trigger] guilds[k]).guild_id != s.guild_id@,
            forall|k: int|
                0 <= k < j ==> target_key((#[trigger] views[k]).guild_id, views[k].user_id) != key@,
    {
        if same(streamers[j].key().as_str(), key.as_str()) {
            assert(target_key(views[j as int].guild_id, views[j as int].user_id) == key@);
            return Some(ConfigError::DuplicateStreamer);
        }
    }
    if !snowflake(s.guild_id.as_str()) || !snowflake(s.user_id.as_str()) {
        Some(ConfigError::StreamerIds)
    } else if !has_some_ids(&s.voice_channel_ids) {
        Some(ConfigError::VoiceChannels)
    } else if !has_optional_id(&s.announcement_channel_id) {
        Some(ConfigError::AnnouncementChannel)
    } else if s.screenshots && s.announcement_channel_id.is_none() {
        Some(ConfigError::ScreenshotsNeedChannel)
    } else if !is_worded(s.display_name.as_str(), 80) {
        Some(ConfigError::DisplayName)
    } else if !is_worded(s.default_title.as_str(), 200) {
        Some(ConfigError::DefaultTitle)
    } else {
        None
    }
}

impl Config {
    /// Checks the configuration. The first thing that is wrong is reported.
    pub fn validate(&self) -> (r: Result<(), ConfigError>)
        ensures
            match r {
                Ok(_) => config_error(*self, url_parts(self.mastodon.base_url@)) is None,
                Err(e) => config_error(*self, url_parts(self.mastodon.base_url@)) == Some(e),
            },
    {
        let url = parse_url(self.mastodon.base_url.as_str());
        self.validate_with(&url)
    }

    /// Checks the configuration, given its base URL taken apart.
    pub fn validate_with(&self, url: &Option<Url>) -> (r: Result<(), ConfigError>)
        ensures
            match r {
                Ok(_) => config_error(*self, url.deep_view()) is None,
                Err(e) => config_error(*self, url.deep_view()) == Some(e),
            },
    {
        let url = match url {
            Some(u) => u,
            None => return Err(ConfigError::BaseUrl),
        };
        if !same(url.scheme.as_str(), "https") || url.host.is_none() {
            return Err(ConfigError::Insecure);
        }
        if !url.username.as_str().is_empty() || url.password.is_some() || url.query.is_some()
            || url.fragment.is_some() || !same(url.path.as_str(), "/") {
            return Err(ConfigError::NoOrigin);
        }
        let seen = self.mastodon.visibility.as_str();
        if !same(seen, "public") && !same(seen, "unlisted") && !same(seen, "private") {
            return Err(ConfigError::Visibility);
        }
        if self.streamers.len() == 0 && self.servers.len() == 0 {
            return Err(ConfigError::NoTargets);
        }
        if self.streamers.len() > 50 || self.servers.len() > 20 {
            return Err(ConfigError::TooMany);
        }
        if self.screenshot_interval_minutes < 5 || self.screenshot_interval_minutes > 1440 {
            return Err(ConfigError::ScreenshotInterval);
        }
        if self.activity_update_interval_minutes < 30 || self.activity_update_interval_minutes
            > 1440 {
            return Err(ConfigError::ActivityInterval);
        }
        let ghost servers = self.servers.deep_view();
        let ghost streamers = self.streamers.deep_view();
        let mut wrong: Option<ConfigError> = None;
        let mut i: usize = 0;
        while i < self.servers.len() && wrong.is_none()
            invariant
                i <= self.servers.len(),
                servers == self.servers.deep_view(),
                wrong == servers_error(servers, i as int),
            decreases self.servers.len() - i,
        {
            wrong = check_server(&self.servers, i);
            i = i + 1;
        }
        if let Some(e) = wrong {
            proof {
                lemma_servers_error_stays(servers, i as int, servers.len() as int);
            }
            return Err(e);
        }
        let mut i: usize = 0;
        while i < self.streamers.len() && wrong.is_none()
            invariant
                i <= self.streamers.len(),
                servers == self.servers.deep_view(),
                streamers == self.streamers.deep_view(),
                wrong == streamers_error(servers, streamers, i as int),
            decreases self.streamers.len() - i,
        {
            wrong = check_streamer(&self.servers, &self.streamers, i);
            i = i + 1;
        }
        if let Some(e) = wrong {
            proof {
                lemma_streamers_error_stays(servers, streamers, i as int, streamers.len() as int);
            }
            return Err(e);
        }
        Ok(())
    }
}

proof fn lemma_servers_error_stays(servers: Seq<ServerView>, m: int, n: int)
    requires
        m <= n,
        servers_error(servers, m) is Some,
    ensures
        servers_error(servers, n) == servers_error(servers, m),
    decreases n - m,
{
    if m < n {
        lemma_servers_error_stays(servers, m, n - 1);
    }
}

proof fn lemma_streamers_error_stays(
    servers: Seq<ServerView>,
    streamers: Seq<StreamerView>,
    m: int,
    n: int,
)
    requires
        m <= n,
        streamers_error(servers, streamers, m) is Some,
    ensures
        streamers_error(servers, streamers, n) == streamers_error(servers, streamers, m),
    decreases n - m,
{
    if m < n {
        lemma_streamers_error_stays(servers, streamers, m, n - 1);
    }
}

} // verus!
