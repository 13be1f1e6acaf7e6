use sirucord::config::{
    interval, visibility, Config, ConfigError, Mastodon, Server, Streamer,
};

fn server() -> Server {
    Server {
        guild_id: "123456789012345678".into(),
        use_activity: true,
        voice_channel_ids: vec!["345678901234567890".into()],
        default_title: "ゲーム・作業の画面共有（詳しくはDiscordで）".into(),
        announcement_channel_id: None,
        share_channel_id: None,
        screenshots: false,
    }
}

fn streamer() -> Streamer {
    Streamer {
        guild_id: "223456789012345678".into(),
        user_id: "234567890123456789".into(),
        display_name: "はま".into(),
        voice_channel_ids: vec!["345678901234567890".into()],
        default_title: "ゲーム配信".into(),
        announcement_channel_id: Some("456789012345678901".into()),
        screenshots: true,
    }
}

fn example() -> Config {
    Config {
        mastodon: Mastodon {
            base_url: "https://mastodon.social".into(),
            visibility: "unlisted".into(),
        },
        streamers: Vec::new(),
        servers: vec![server()],
        screenshot_interval_minutes: 30,
        activity_update_interval_minutes: 30,
    }
}

#[test]
fn example_is_valid() {
    assert_eq!(example().validate(), Ok(()));
}

#[test]
fn rejects_dangerous_or_misspelled_configuration() {
    let mut insecure = example();
    insecure.mastodon.base_url = "http://mastodon.social".into();
    assert_eq!(insecure.validate(), Err(ConfigError::Insecure));
    let mut secret = example();
    secret.mastodon.base_url = "https://secret@mastodon.social".into();
    assert_eq!(secret.validate(), Err(ConfigError::NoOrigin));
    let mut empty = example();
    empty.servers[0].voice_channel_ids.clear();
    assert_eq!(empty.validate(), Err(ConfigError::VoiceChannels));
}

#[test]
fn every_rule_of_a_configuration_has_its_error() {
    let check = |change: &dyn Fn(&mut Config)| {
        let mut config = example();
        config.streamers.push(streamer());
        change(&mut config);
        config.validate()
    };
    assert_eq!(check(&|_| {}), Ok(()));
    assert_eq!(check(&|c| c.mastodon.base_url = "x".into()), Err(ConfigError::BaseUrl));
    assert_eq!(
        check(&|c| c.mastodon.base_url = "https://mastodon.social/path".into()),
        Err(ConfigError::NoOrigin)
    );
    assert_eq!(check(&|c| c.mastodon.visibility = "direct".into()), Err(ConfigError::Visibility));
    assert_eq!(
        check(&|c| {
            c.servers.clear();
            c.streamers.clear();
        }),
        Err(ConfigError::NoTargets)
    );
    assert_eq!(
        check(&|c| (0..20).for_each(|_| c.servers.push(server()))),
        Err(ConfigError::TooMany)
    );
    assert_eq!(
        check(&|c| c.screenshot_interval_minutes = 4),
        Err(ConfigError::ScreenshotInterval)
    );
    assert_eq!(
        check(&|c| c.activity_update_interval_minutes = 29),
        Err(ConfigError::ActivityInterval)
    );
    assert_eq!(check(&|c| c.servers.push(server())), Err(ConfigError::DuplicateServer));
    assert_eq!(check(&|c| c.servers[0].guild_id = "0".into()), Err(ConfigError::GuildId));
    assert_eq!(
        check(&|c| c.servers[0].share_channel_id = Some("x".into())),
        Err(ConfigError::ShareChannel)
    );
    assert_eq!(
        check(&|c| c.servers[0].announcement_channel_id = Some("x".into())),
        Err(ConfigError::AnnouncementChannel)
    );
    assert_eq!(
        check(&|c| c.servers[0].screenshots = true),
        Err(ConfigError::ScreenshotsNeedChannel)
    );
    assert_eq!(check(&|c| c.servers[0].default_title = " ".into()), Err(ConfigError::DefaultTitle));
    assert_eq!(
        check(&|c| c.streamers[0].guild_id = "123456789012345678".into()),
        Err(ConfigError::BothWays)
    );
    assert_eq!(check(&|c| c.streamers.push(streamer())), Err(ConfigError::DuplicateStreamer));
    assert_eq!(check(&|c| c.streamers[0].user_id = "x".into()), Err(ConfigError::StreamerIds));
    assert_eq!(
        check(&|c| c.streamers[0].display_name = "名".repeat(81)),
        Err(ConfigError::DisplayName)
    );
    assert_eq!(
        ConfigError::Insecure.message(),
        "Mastodon base_url must use HTTPS"
    );
}

#[test]
fn defaults_and_names_of_targets() {
    assert_eq!(interval(), 30);
    assert_eq!(visibility(), "unlisted");
    assert_eq!(streamer().key(), "223456789012345678:234567890123456789");
}
