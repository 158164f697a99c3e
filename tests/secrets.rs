use dkdc::secrets::{
    escape_dotenv, escape_shell, export_text, filter_by_prefix, no_secrets_message,
    ExportError, ExportFormat,
};

fn entries() -> Vec<(String, String)> {
    vec![
        ("A".to_string(), "it's".to_string()),
        ("B".to_string(), "say \"hi\"\nbye".to_string()),
    ]
}

#[test]
fn formats_are_named() {
    assert_eq!(ExportFormat::parse("shell"), Some(ExportFormat::Shell));
    assert_eq!(ExportFormat::parse("dotenv"), Some(ExportFormat::Dotenv));
    assert_eq!(ExportFormat::parse("json"), Some(ExportFormat::Json));
    assert_eq!(ExportFormat::parse("yaml"), None);
}

#[test]
fn shell_export_quotes_single_quotes() {
    assert_eq!(escape_shell("it's"), "it'\"'\"'s");
    assert_eq!(
        export_text(ExportFormat::Shell, &entries()),
        Ok("# dkdc secrets export\nexport A='it'\"'\"'s'\nexport B='say \"hi\"\nbye'\n".to_string())
    );
}

#[test]
fn dotenv_export_escapes_quotes_and_newlines() {
    assert_eq!(escape_dotenv("a\"b\nc"), "a\\\"b\\nc");
    assert_eq!(
        export_text(ExportFormat::Dotenv, &entries()),
        Ok("# dkdc secrets export\nA=\"it's\"\nB=\"say \\\"hi\\\"\\nbye\"\n".to_string())
    );
}

#[test]
fn json_is_not_a_line_format() {
    assert_eq!(
        export_text(ExportFormat::Json, &entries()),
        Err(ExportError::NotLineFormat)
    );
}

#[test]
fn prefix_filter_keeps_matching_names_in_order() {
    let names = vec!["AWS_KEY".to_string(), "GH".to_string(), "AWS_ID".to_string()];
    assert_eq!(
        filter_by_prefix(names.clone(), Some("AWS_")),
        vec!["AWS_KEY".to_string(), "AWS_ID".to_string()]
    );
    assert_eq!(filter_by_prefix(names.clone(), None), names);
    assert!(filter_by_prefix(names, Some("X")).is_empty());
}

#[test]
fn empty_export_note_names_the_prefix() {
    assert_eq!(no_secrets_message(None), "# No secrets found");
    assert_eq!(no_secrets_message(Some("AWS")), "# No secrets found with prefix 'AWS'");
}
