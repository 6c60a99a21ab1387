use gx::interpreter::util::{
    cron_field_matches, cron_matches, infer_error_kind, normalize_components, parse_env_file,
    state_db_path, strip_html_tags, PathPart,
};

#[test]
fn strip_html_tags_drops_tags_decodes_entities_and_collapses_whitespace() {
    assert_eq!(
        strip_html_tags("<p>Hello&nbsp;&amp;   <b>world</b></p>\n\t&lt;ok&gt; &quot;x&quot; &#39;y&#39;"),
        "Hello & world <ok> \"x\" 'y'"
    );
    assert_eq!(strip_html_tags("   "), "");
    assert_eq!(strip_html_tags("<br>"), "");
    // Entities are decoded one after another, so an escaped entity decodes twice.
    assert_eq!(strip_html_tags("&amp;lt;"), "<");
}

#[test]
fn strip_html_tags_output_has_single_spaces_only() {
    let out = strip_html_tags("  a \n\n b<i> </i>  c  ");
    assert_eq!(out, "a b c");
    assert!(!out.contains("  "));
}

#[test]
fn infer_error_kind_classifies_by_keyword() {
    assert_eq!(infer_error_kind("Invalid JSON at 3"), "JsonParseError");
    assert_eq!(infer_error_kind("Connection refused"), "NetworkError");
    assert_eq!(infer_error_kind("HTTP 500"), "NetworkError");
    assert_eq!(infer_error_kind("Permission denied"), "PermissionError");
    assert_eq!(infer_error_kind("Access Denied for user"), "PermissionError");
    assert_eq!(infer_error_kind("File not found"), "NotFoundError");
    assert_eq!(infer_error_kind("No such file or directory"), "NotFoundError");
    assert_eq!(infer_error_kind("Assertion failed: x"), "AssertionError");
    assert_eq!(infer_error_kind("boom"), "RuntimeError");
    assert_eq!(infer_error_kind("parse timeout"), "JsonParseError");
}

fn normal(s: &str) -> PathPart {
    PathPart::Normal(s.to_string())
}

#[test]
fn normalize_components_resolves_dots_without_the_filesystem() {
    let parts = vec![
        PathPart::RootDir,
        normal("a"),
        PathPart::CurDir,
        normal("b"),
        PathPart::ParentDir,
        normal("c"),
    ];
    assert_eq!(
        normalize_components(parts),
        vec![PathPart::RootDir, normal("a"), normal("c")]
    );
    let leading = vec![PathPart::ParentDir, PathPart::ParentDir, normal("x"), PathPart::ParentDir];
    assert_eq!(normalize_components(leading), vec![]);
    let above_root = vec![PathPart::RootDir, PathPart::ParentDir, normal("etc"), normal("passwd")];
    assert_eq!(
        normalize_components(above_root),
        vec![PathPart::RootDir, normal("etc"), normal("passwd")]
    );
}

#[test]
fn normalizing_twice_changes_nothing() {
    let parts = vec![normal("a"), PathPart::ParentDir, PathPart::ParentDir, normal("b"), PathPart::CurDir];
    let once = normalize_components(parts);
    let twice = normalize_components(once.clone());
    assert_eq!(once, twice);
}

#[test]
fn cron_fields_match_star_step_range_and_number() {
    assert!(cron_field_matches("*", 37, 0, 59));
    assert!(cron_field_matches("*/15", 30, 0, 59));
    assert!(!cron_field_matches("*/15", 31, 0, 59));
    assert!(cron_field_matches("*/x", 31, 0, 59));
    assert!(!cron_field_matches("*/0", 0, 0, 59));
    assert!(cron_field_matches("10-20", 15, 0, 59));
    assert!(!cron_field_matches("10-20", 21, 0, 59));
    assert!(cron_field_matches("-5", 0, 0, 59));
    assert!(cron_field_matches("50-", 59, 0, 59));
    assert!(cron_field_matches("7", 7, 0, 59));
    assert!(cron_field_matches("+7", 7, 0, 59));
    assert!(!cron_field_matches("7", 8, 0, 59));
    assert!(!cron_field_matches("x", 0, 0, 59));
    assert!(!cron_field_matches("99999999999999999999", 0, 0, 59));
}

#[test]
fn cron_expressions_match_unix_times() {
    // 1970-01-01T00:00 was a Thursday (day of week 4).
    assert!(cron_matches("* * * * *", 0));
    assert!(cron_matches("0 0 1 1 4", 0));
    assert!(!cron_matches("1 0 1 1 4", 0));
    // 90 minutes in: minute 30 of hour 1.
    assert!(cron_matches("30 1 * * *", 90 * 60));
    assert!(cron_matches("  */10   1 1 1 4 extra", 90 * 60));
    assert!(!cron_matches("* * * *", 0));
}

#[test]
fn env_files_parse_into_key_value_pairs() {
    let text = "# comment\n\nKEY=value\n  SPACED = \"quoted value\"  \r\nSINGLE='x'\nNOEQUALS\nEMPTY=\nA=b=c";
    let pairs = parse_env_file(text);
    let expected: Vec<(String, String)> = vec![
        ("KEY".into(), "value".into()),
        ("SPACED".into(), "quoted value".into()),
        ("SINGLE".into(), "x".into()),
        ("EMPTY".into(), "".into()),
        ("A".into(), "b=c".into()),
    ];
    assert_eq!(pairs, expected);
}

#[test]
fn state_db_paths_use_a_safe_file_name() {
    assert_eq!(state_db_path("/home/u/.gx/state", "my agent/v2"), "/home/u/.gx/state/my_agent_v2.db");
    assert_eq!(state_db_path(".", "ok-name_1"), "./ok-name_1.db");
}
