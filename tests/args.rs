use cargo_stopwatchd::alive;
use cargo_stopwatchd::args::{
    get_subcommand, parse_arg, start_config, stopwatch_server_config, ArgError, ServerConfig,
    Subcommand,
};
use cargo_stopwatchd::session::StartConfig;

#[test]
fn parses_unsigned_arguments() {
    assert_eq!(parse_arg("44355", 65535), Some(44355));
    assert_eq!(parse_arg("+12", 65535), Some(12));
    assert_eq!(parse_arg("007", 65535), Some(7));
    assert_eq!(parse_arg("65535", 65535), Some(65535));
    assert_eq!(parse_arg("65536", 65535), None);
    assert_eq!(parse_arg("18446744073709551615", u64::MAX), Some(u64::MAX));
    assert_eq!(parse_arg("18446744073709551616", u64::MAX), None);
    assert_eq!(parse_arg("", 65535), None);
    assert_eq!(parse_arg("+", 65535), None);
    assert_eq!(parse_arg("-1", 65535), None);
    assert_eq!(parse_arg("1x", 65535), None);
}

#[test]
fn names_subcommands() {
    assert_eq!(get_subcommand(Some("start")), Subcommand::Start);
    assert_eq!(get_subcommand(Some("alive")), Subcommand::Alive);
    assert_eq!(get_subcommand(Some("stop")), Subcommand::Unknown);
    assert_eq!(get_subcommand(None), Subcommand::Unknown);
}

#[test]
fn start_reads_its_arguments() {
    assert_eq!(
        stopwatch_server_config(Some("start"), Some("44355"), Some("10"), true),
        Ok(ServerConfig {
            command: Subcommand::Start,
            start_config: StartConfig { port: 44355, timeout: 10, quiet: true },
        })
    );
}

#[test]
fn other_subcommands_get_zero_config() {
    assert_eq!(
        stopwatch_server_config(Some("alive"), Some("1"), Some("2"), true),
        Ok(ServerConfig {
            command: Subcommand::Alive,
            start_config: StartConfig { port: 0, timeout: 0, quiet: false },
        })
    );
}

#[test]
fn bad_arguments_are_refused() {
    assert_eq!(
        stopwatch_server_config(Some("start"), Some("70000"), Some("10"), false),
        Err(ArgError::InvalidPort)
    );
    assert_eq!(
        start_config(Subcommand::Start, Some("80"), Some("soon"), false),
        Err(ArgError::InvalidTimeout)
    );
    assert_eq!(start_config(Subcommand::Start, None, None, false), Err(ArgError::InvalidPort));
}

#[test]
fn daemon_is_alive() {
    assert!(alive());
}
