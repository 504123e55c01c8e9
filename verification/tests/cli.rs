use wayland_proxy::cli::{Cli, Settings};

fn args(words: &[&str]) -> Vec<String> {
    words.iter().map(|w| w.to_string()).collect()
}

#[test]
fn defaults_with_no_args() {
    let cli = Cli::try_parse_from(args(&["wayland-proxy"]), Settings::none()).unwrap();
    assert_eq!(cli.display, "wayland-1");
    assert_eq!(cli.record, None);
    assert_eq!(cli.log_level, "info");
    assert_eq!(cli.listen, "wayland-proxy-0");
}

#[test]
fn flags_override_defaults() {
    let cli = Cli::try_parse_from(
        args(&[
            "wayland-proxy",
            "--display",
            "wayland-2",
            "--record",
            "/tmp/rec.log",
            "--log-level",
            "wayland_proxy=debug",
            "--listen",
            "wayland-proxy-1",
        ]),
        Settings::none(),
    )
    .unwrap();
    assert_eq!(cli.display, "wayland-2");
    assert_eq!(cli.record.as_deref(), Some("/tmp/rec.log"));
    assert_eq!(cli.log_level, "wayland_proxy=debug");
    assert_eq!(cli.listen, "wayland-proxy-1");
}

#[test]
fn unknown_flag_is_rejected() {
    assert!(
        Cli::try_parse_from(args(&["wayland-proxy", "--bogus"]), Settings::none()).is_err()
    );
}

#[test]
fn a_flag_wins_over_a_variable_and_a_variable_over_the_default() {
    let variables = Settings {
        display: Some("wayland-7".to_string()),
        record: Some("/tmp/env.log".to_string()),
        log_level: None,
        listen: Some("from-env".to_string()),
    };
    let cli =
        Cli::try_parse_from(args(&["wayland-proxy", "--display=wayland-2"]), variables).unwrap();
    assert_eq!(cli.display, "wayland-2");
    assert_eq!(cli.record.as_deref(), Some("/tmp/env.log"));
    assert_eq!(cli.log_level, "info");
    assert_eq!(cli.listen, "from-env");
}

#[test]
fn a_request_for_help_is_no_error() {
    let refusal =
        Cli::try_parse_from(args(&["wayland-proxy", "--help"]), Settings::none()).unwrap_err();
    assert!(!refusal.is_error);
    assert!(refusal.text.contains("--log-level"));
    let refusal =
        Cli::try_parse_from(args(&["wayland-proxy", "--listen"]), Settings::none()).unwrap_err();
    assert!(refusal.is_error);
}
