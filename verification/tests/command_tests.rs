use codex_goal_resumer::command::{
    codex_command, shell_quote, shell_quote_path, validate_config, watchdog_command, ConfigError,
};
use codex_goal_resumer::monitor::MonitorConfig;
use codex_goal_resumer::tmux::Tmux;

fn config() -> MonitorConfig {
    MonitorConfig {
        watch_interval: 20,
        poll_interval: 1800,
        reset_grace: 10,
        status_refresh_count: 3,
        status_refresh_delay: 3,
    }
}

#[test]
fn new_conversation_always_uses_yolo() {
    assert_eq!(codex_command("/usr/bin/codex", None), "'/usr/bin/codex' --yolo");
}

#[test]
fn resumed_conversation_keeps_yolo_and_quotes_identifier() {
    assert_eq!(
        codex_command("/usr/bin/codex", Some("release goal's thread")),
        "'/usr/bin/codex' --yolo resume 'release goal'\\''s thread'"
    );
}

#[test]
fn quoting_escapes_single_quotes() {
    assert_eq!(shell_quote(""), "''");
    assert_eq!(shell_quote("a b"), "'a b'");
    assert_eq!(shell_quote("'"), "''\\'''");
    assert_eq!(shell_quote_path("/tmp/it's"), "'/tmp/it'\\''s'");
}

#[test]
fn watchdog_command_quotes_every_argument() {
    assert_eq!(
        watchdog_command("/bin/cgr", "my session", "%3", &config()),
        "'/bin/cgr' '--internal-watchdog' '--pane-id' '%3' '--session' 'my session' \
         '--watch-interval' '20' '--poll-interval' '1800' '--reset-grace' '10' \
         '--status-refresh-count' '3' '--status-refresh-delay' '3'"
    );
}

#[test]
fn config_errors_in_order() {
    assert_eq!(validate_config(&config()), Ok(()));
    let mut c = config();
    c.watch_interval = 0;
    c.poll_interval = 0;
    assert_eq!(validate_config(&c), Err(ConfigError::WatchIntervalZero));
    c.watch_interval = 1;
    assert_eq!(validate_config(&c), Err(ConfigError::PollIntervalZero));
    c.poll_interval = 1;
    c.status_refresh_count = 0;
    assert_eq!(validate_config(&c), Err(ConfigError::StatusRefreshCountZero));
    assert_eq!(
        ConfigError::StatusRefreshCountZero.message(),
        "--status-refresh-count must be greater than zero"
    );
    assert_eq!(ConfigError::WatchIntervalZero.message(), "--watch-interval must be greater than zero");
    assert_eq!(ConfigError::PollIntervalZero.message(), "--poll-interval must be greater than zero");
}

#[test]
fn tmux_keeps_its_target() {
    let t = Tmux::new("%12".to_string());
    assert_eq!(t.target(), "%12");
}
