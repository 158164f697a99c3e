use dkdc::links::{alias_or_link_to_uri, alias_or_thing_to_uri, Config, ResolveError};
use dkdc::table::Table;

fn sample() -> Config {
    let mut config = Config::new();
    config.aliases.insert("a".to_string(), "thing".to_string());
    config
        .things
        .insert("thing".to_string(), "https://example.com".to_string());
    config
}

#[test]
fn alias_resolves_through_its_target() {
    let config = sample();
    assert_eq!(
        alias_or_thing_to_uri("a", &config),
        Ok("https://example.com".to_string())
    );
}

#[test]
fn key_resolves_directly() {
    let config = sample();
    assert_eq!(
        alias_or_thing_to_uri("thing", &config),
        Ok("https://example.com".to_string())
    );
}

#[test]
fn unknown_token_is_not_found() {
    let config = sample();
    assert_eq!(
        alias_or_thing_to_uri("nope", &config),
        Err(ResolveError::NotFound("nope".to_string()))
    );
}

#[test]
fn resolving_twice_gives_the_same_result() {
    let config = sample();
    for token in ["a", "thing", "nope"] {
        assert_eq!(
            alias_or_link_to_uri(token, &config),
            alias_or_link_to_uri(token, &config)
        );
    }
}

#[test]
fn broken_alias_falls_through_to_direct_lookup() {
    let mut config = sample();
    config.aliases.insert("thing".to_string(), "missing".to_string());
    config.aliases.insert("b".to_string(), "missing".to_string());
    assert_eq!(
        alias_or_link_to_uri("thing", &config),
        Ok("https://example.com".to_string())
    );
    assert_eq!(
        alias_or_link_to_uri("b", &config),
        Err(ResolveError::NotFound("b".to_string()))
    );
}

#[test]
fn table_keeps_one_value_per_key() {
    let mut t = Table::new();
    assert_eq!(t.len(), 0);
    t.insert("k".to_string(), "1".to_string());
    t.insert("j".to_string(), "2".to_string());
    t.insert("k".to_string(), "3".to_string());
    assert_eq!(t.len(), 2);
    assert_eq!(t.get("k"), Some(&"3".to_string()));
    assert_eq!(t.get("j"), Some(&"2".to_string()));
    assert_eq!(t.get("x"), None);
    assert_eq!(t.keys(), vec!["k".to_string(), "j".to_string()]);
}
