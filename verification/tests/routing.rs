use mcproxy::{Config, ConfigSource, Server};

fn rule(hostname: &str, dest: &str) -> Server {
    Server {
        hostname: hostname.to_string(),
        dest: dest.to_string(),
    }
}

fn table(rules: Vec<Server>) -> Config {
    Config {
        config_version: 1,
        listen: "0.0.0.0:25565".to_string(),
        default_server: "10.0.0.9:25565".to_string(),
        servers: rules,
    }
}

fn resolve(config: &Config, hostname: &str) -> String {
    config.resolve(&hostname.to_string())
}

#[test]
fn resolve_takes_the_first_of_two_rules_for_one_host() {
    let config = table(vec![
        rule("a.example", "10.0.0.1:25565"),
        rule("a.example", "10.0.0.2:25565"),
    ]);
    assert_eq!(resolve(&config, "a.example"), "10.0.0.1:25565");
}

#[test]
fn resolve_gives_the_destination_of_each_rule() {
    let config = table(vec![
        rule("a.example", "10.0.0.1:25565"),
        rule("b.example", "10.0.0.2:25565"),
        rule("c.example", "10.0.0.3:25566"),
    ]);
    assert_eq!(resolve(&config, "a.example"), "10.0.0.1:25565");
    assert_eq!(resolve(&config, "b.example"), "10.0.0.2:25565");
    assert_eq!(resolve(&config, "c.example"), "10.0.0.3:25566");
}

#[test]
fn resolve_gives_the_default_for_an_unknown_host() {
    let config = table(vec![
        rule("a.example", "10.0.0.1:25565"),
        rule("b.example", "10.0.0.2:25565"),
    ]);
    assert_eq!(resolve(&config, "z.example"), "10.0.0.9:25565");
    assert_eq!(resolve(&config, ""), "10.0.0.9:25565");
}

#[test]
fn resolve_gives_the_default_without_rules() {
    let config = table(Vec::new());
    assert_eq!(resolve(&config, "a.example"), "10.0.0.9:25565");
    assert_eq!(resolve(&config, ""), "10.0.0.9:25565");
}

#[test]
fn resolve_compares_letter_for_letter() {
    let config = table(vec![rule("a.example", "10.0.0.1:25565")]);
    assert_eq!(resolve(&config, "A.example"), "10.0.0.9:25565");
    assert_eq!(resolve(&config, "a.example."), "10.0.0.9:25565");
    assert_eq!(resolve(&config, "a.example "), "10.0.0.9:25565");
    assert_eq!(resolve(&config, "a.exampl"), "10.0.0.9:25565");
    assert_eq!(resolve(&config, "a.example"), "10.0.0.1:25565");
}

#[test]
fn resolve_skips_rules_for_other_hosts() {
    let config = table(vec![
        rule("b.example", "10.0.0.2:25565"),
        rule("a.example", "10.0.0.1:25565"),
        rule("b.example", "10.0.0.3:25565"),
        rule("a.example", "10.0.0.4:25565"),
    ]);
    assert_eq!(resolve(&config, "a.example"), "10.0.0.1:25565");
    assert_eq!(resolve(&config, "b.example"), "10.0.0.2:25565");
}

#[test]
fn resolve_with_the_built_in_settings() {
    let config = Config::default();
    assert_eq!(resolve(&config, "play.example"), "localhost:25564");
}

#[test]
fn built_in_settings() {
    let config = Config::default();
    assert_eq!(config.config_version, 0);
    assert_eq!(config.listen, "localhost:25565");
    assert_eq!(config.default_server, "localhost:25564");
    assert_eq!(config.servers, Vec::new());
}

#[test]
fn settings_that_were_understood_are_kept() {
    let loaded = table(vec![rule("a.example", "10.0.0.1:25565")]);
    let expected = table(vec![rule("a.example", "10.0.0.1:25565")]);
    assert_eq!(
        Config::from_source(ConfigSource::Parsed(loaded)),
        Some(expected)
    );
}

#[test]
fn settings_fall_back_where_the_file_is_missing_or_makes_no_sense() {
    assert_eq!(
        Config::from_source(ConfigSource::Missing),
        Some(Config::default())
    );
    assert_eq!(
        Config::from_source(ConfigSource::Malformed),
        Some(Config::default())
    );
}

#[test]
fn settings_that_cannot_be_read_are_given_up() {
    assert_eq!(Config::from_source(ConfigSource::Unreadable), None);
}
