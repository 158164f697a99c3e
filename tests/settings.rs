use dkdc::settings::{Config, ConfigFile, ConfigFileRead, join_path};

#[test]
fn test_paths() {
    let config = Config::from_path("/home/test/.dkdc".to_string());
    assert_eq!(config.dkdc_dir().to_string(), "/home/test/.dkdc");
    assert_eq!(config.lake_dir().to_string(), "/home/test/.dkdc/dkdclake");
    assert_eq!(
        config.metadata_path().to_string(),
        "/home/test/.dkdc/dkdclake/metadata.db"
    );
}

#[test]
fn other_paths_sit_under_the_data_directory() {
    let config = Config::from_path("/home/test/.dkdc".to_string());
    assert_eq!(config.data_path(), "/home/test/.dkdc/dkdclake/data");
    assert_eq!(config.venv_path(), "/home/test/.dkdc/venv");
    assert_eq!(config.python_path(), "/home/test/.dkdc/venv/bin/python");
}

#[test]
fn join_adds_one_separator() {
    assert_eq!(join_path("/a", "b"), "/a/b");
    assert_eq!(join_path("/a/", "b"), "/a/b");
    assert_eq!(join_path("", "b"), "b");
}

#[test]
fn settings_file_location_prefers_xdg_then_home() {
    let config = Config::from_path("/d".to_string());
    assert_eq!(
        config.config_file_path(Some("/x"), Some("/h")),
        "/x/dkdc/config.toml"
    );
    assert_eq!(config.config_file_path(None, Some("/h")), "/h/.config/dkdc/config.toml");
    assert_eq!(config.config_file_path(None, None), "/d/dkdc/config.toml");
}

#[test]
fn settings_default_until_a_file_is_read() {
    let mut config = Config::from_path("/d".to_string());
    let f = config.file("nano");
    assert_eq!(f.general.editor, "nano");
    assert!(f.dev.packages.is_empty());

    config.reload_config_file(ConfigFileRead::Missing, "vi");
    assert_eq!(config.file("nano").general.editor, "nano");

    let mut parsed = ConfigFile::with_editor("hx");
    parsed.dev.packages.push("pandas".to_string());
    config.reload_config_file(ConfigFileRead::Parsed(parsed), "vi");
    let f = config.file("nano");
    assert_eq!(f.general.editor, "hx");
    assert_eq!(f.dev.packages, vec!["pandas".to_string()]);

    config.reload_config_file(ConfigFileRead::Invalid, "vi");
    let f = config.file("nano");
    assert_eq!(f.general.editor, "vi");
    assert!(f.dev.packages.is_empty());
}

#[test]
fn lake_sql_attaches_metadata_and_data() {
    let config = Config::from_path("/home/test/.dkdc".to_string());
    assert_eq!(
        dkdc::lake::get_sql_commands(&config),
        "INSTALL ducklake;\nINSTALL sqlite;\n\nATTACH '/home/test/.dkdc/dkdclake/metadata.db' AS metadata;\nATTACH 'ducklake:sqlite:/home/test/.dkdc/dkdclake/metadata.db' AS data (DATA_PATH '/home/test/.dkdc/dkdclake/data', ENCRYPTED);\n\nUSE data;"
    );
}

#[test]
fn data_directory_sits_in_the_home_directory() {
    let config = Config::new("/home/test");
    assert_eq!(config.dkdc_dir(), "/home/test/.dkdc");
    assert_eq!(config.lake_dir(), "/home/test/.dkdc/dkdclake");
}
