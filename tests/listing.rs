use dkdc::links::Config;
use dkdc::listing::format_config;

#[test]
fn listing_sorts_keys_and_pads_them() {
    let mut config = Config::new();
    config.aliases.insert("alias".to_string(), "thing".to_string());
    config.aliases.insert("a".to_string(), "thing".to_string());
    config
        .things
        .insert("thing".to_string(), "https://github.com/lostmygithubaccount/dkdc".to_string());
    assert_eq!(
        format_config(&config),
        "aliases:\n\n\u{2022} a     | thing\n\u{2022} alias | thing\n\nthings:\n\n\u{2022} thing | https://github.com/lostmygithubaccount/dkdc\n\n"
    );
}

#[test]
fn empty_sections_are_left_out() {
    let mut config = Config::new();
    assert_eq!(format_config(&config), "");
    config.things.insert("b".to_string(), "2".to_string());
    config.things.insert("B".to_string(), "1".to_string());
    config.things.insert("ab".to_string(), "3".to_string());
    assert_eq!(
        format_config(&config),
        "things:\n\n\u{2022} B  | 1\n\u{2022} ab | 3\n\u{2022} b  | 2\n\n"
    );
}

#[test]
fn width_counts_bytes_and_padding_counts_characters() {
    let mut config = Config::new();
    config.things.insert("é".to_string(), "x".to_string());
    config.things.insert("z".to_string(), "y".to_string());
    assert_eq!(
        format_config(&config),
        "things:\n\n\u{2022} z  | y\n\u{2022} é  | x\n\n"
    );
}
