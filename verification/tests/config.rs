//! Where to point.

use outpost::config::{load, path, resolve, unless_blank, Config, ConfigError, Target};

fn target(host: &str, window: &str) -> Target {
    Target {
        host: host.to_string(),
        window: window.to_string(),
    }
}

fn sample() -> Config {
    let mut config = Config::default();
    config.put("dev".to_string(), target("devbox", "main:0"));
    config.put("build".to_string(), target("builder", "ci:1"));
    config
}

fn some(text: &str) -> Option<String> {
    Some(text.to_string())
}

#[test]
fn targets_stand_in_the_order_of_their_names() {
    let mut config = sample();
    config.put("cold".to_string(), target("c", "w"));
    assert_eq!(config.names(), ["build", "cold", "dev"]);
    assert_eq!(config.get("cold").unwrap().host, "c");
    assert!(config.get("absent").is_none());
}

#[test]
fn a_target_written_twice_is_the_later_one() {
    let mut config = sample();
    config.put("dev".to_string(), target("other", "main:9"));
    assert_eq!(config.names(), ["build", "dev"]);
    assert_eq!(config.get("dev").unwrap().host, "other");
    assert_eq!(config.get("build").unwrap().host, "builder");
}

#[test]
fn the_file_is_in_the_config_directory() {
    assert_eq!(path(Some("/x"), Some("/home/u")).unwrap(), "/x/outpost/config.toml");
    assert_eq!(path(Some("/x/"), None).unwrap(), "/x/outpost/config.toml");
    assert_eq!(
        path(Some(""), Some("/home/u")).unwrap(),
        "/home/u/.config/outpost/config.toml"
    );
    assert_eq!(path(None, Some("")).unwrap(), ".config/outpost/config.toml");
}

#[test]
fn paths_join_as_the_standard_library_joins_them() {
    for base in ["/x", "/x/", "x", "/", "x//"] {
        let standard = std::path::PathBuf::from(base).join("outpost/config.toml");
        assert_eq!(path(Some(base), None).unwrap(), standard.to_str().unwrap());
    }
}

#[test]
fn without_a_home_there_is_no_file() {
    let error = path(None, None).unwrap_err();
    assert!(matches!(error, ConfigError::NoHome));
    assert_eq!(error.message(), "HOME is not set");
}

#[test]
fn a_missing_file_is_an_empty_config() {
    let config = load("/x", None).unwrap();
    assert!(config.default.is_none());
    assert!(config.targets.is_empty());
}

#[test]
fn a_file_that_is_there_is_taken_as_it_is() {
    let config = load("/x", Some(Ok(sample()))).unwrap();
    assert_eq!(config.names(), ["build", "dev"]);
    let error = load("/x", Some(Err("line 3".to_string()))).unwrap_err();
    assert!(matches!(&error, ConfigError::Unreadable { cause, .. } if cause == "line 3"));
    assert_eq!(error.message(), "reading /x");
}

#[test]
fn a_named_target_is_where_the_config_says() {
    let config = sample();
    let got = resolve(&config, Some("dev"), "/x", some("elsewhere"), some("w")).unwrap();
    assert_eq!(got, ("devbox".to_string(), "main:0".to_string()));
}

#[test]
fn the_default_is_used_when_nothing_is_named() {
    let mut config = sample();
    config.default = some("build");
    let got = resolve(&config, None, "/x", None, some("  ")).unwrap();
    assert_eq!(got, ("builder".to_string(), "ci:1".to_string()));
    let got = resolve(&config, Some("dev"), "/x", None, None).unwrap();
    assert_eq!(got.0, "devbox");
}

/// A one-off can be pointed somewhere else without editing a file.
#[test]
fn the_environment_wins_over_the_default() {
    let mut config = sample();
    config.default = some("build");
    let got = resolve(&config, None, "/x", some("elsewhere"), None).unwrap();
    assert_eq!(got, ("elsewhere".to_string(), "ci:1".to_string()));
    let got = resolve(&config, None, "/x", some("elsewhere"), some("w:2")).unwrap();
    assert_eq!(got, ("elsewhere".to_string(), "w:2".to_string()));
}

#[test]
fn the_environment_works_instead_of_a_file() {
    let config = Config::default();
    let got = resolve(&config, None, "/x", some("h"), some("w")).unwrap();
    assert_eq!(got, ("h".to_string(), "w".to_string()));
}

#[test]
fn nothing_to_point_at_says_what_to_write() {
    let config = Config::default();
    let error = resolve(&config, None, "/x/c.toml", some("h"), some(" \t")).unwrap_err();
    assert!(matches!(error, ConfigError::NothingToPointAt { .. }));
    assert_eq!(
        error.message(),
        "nothing to point at. write /x/c.toml:\n\n\
         \x20   default = \"dev\"\n\n\
         \x20   [targets.dev]\n\
         \x20   host = \"<ssh destination>\"\n\
         \x20   window = \"<tmux session:window>\"\n\n\
         or set OUTPOST_HOST and OUTPOST_WINDOW."
    );
}

#[test]
fn an_unknown_target_lists_the_known_ones() {
    let error = resolve(&sample(), Some("prod"), "/x", None, None).unwrap_err();
    assert!(matches!(error, ConfigError::UnknownTarget { .. }));
    assert_eq!(error.message(), "no target \"prod\". there is: build, dev");
    let mut config = Config::default();
    config.default = some("dev");
    let error = resolve(&config, None, "/x", some("h"), some("w")).unwrap_err();
    assert_eq!(error.message(), "no target \"dev\", and /x has none");
}

#[test]
fn a_blank_variable_says_nothing() {
    assert_eq!(unless_blank(some(" \n")), None);
    assert_eq!(unless_blank(some(" x ")), some(" x "));
    assert_eq!(unless_blank(None), None);
}
