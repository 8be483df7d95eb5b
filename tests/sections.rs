use drifters::format::{detect_format, get_comment_syntax, FileFormat};
use drifters::sections::{
    detect_comment_syntax, extract_exclude_sections, extract_syncable_content,
    merge_synced_content,
};

#[test]
fn test_extract_syncable_content_exclude() {
    let content = r#"
export SHARED="shared"

# drifters::exclude::start
export LOCAL_ONLY="local"
alias local_alias="foo"
# drifters::exclude::stop

export ANOTHER_SHARED="also shared"
"#;

    let result = extract_syncable_content(content, "#").unwrap();
    assert!(result.is_some());
    let synced = result.unwrap();
    assert!(synced.contains("export SHARED"));
    assert!(synced.contains("export ANOTHER_SHARED"));
    assert!(synced.contains("# drifters::exclude::start"));
    assert!(synced.contains("# drifters::exclude::stop"));
    assert!(!synced.contains("export LOCAL_ONLY"));
    assert!(!synced.contains("alias local_alias"));
}

#[test]
fn test_no_tags() {
    let content = "export EDITOR=\"nvim\"\nalias g=\"git\"";
    let result = extract_syncable_content(content, "#").unwrap();
    assert!(result.is_none());
}

#[test]
fn test_merge_synced_content() {
    let local = r#"
export SHARED="old_value"

# drifters::exclude::start
export LOCAL="my_local_value"
# drifters::exclude::stop

export OTHER="old_other"
"#;

    let synced = r#"
export SHARED="new_value"

# drifters::exclude::start
# drifters::exclude::stop

export OTHER="new_other"
"#;

    let result = merge_synced_content(local, synced, "#").unwrap();
    assert!(result.contains("export SHARED=\"new_value\""));
    assert!(result.contains("export OTHER=\"new_other\""));
    assert!(result.contains("export LOCAL=\"my_local_value\""));
}

#[test]
fn test_multiple_exclude_sections() {
    let content = r#"
export SHARED1="shared"

# drifters::exclude::start
export LOCAL1="local"
# drifters::exclude::stop

export SHARED2="shared"

# drifters::exclude::start
export LOCAL2="local"
# drifters::exclude::stop
"#;

    let result = extract_syncable_content(content, "#").unwrap();
    assert!(result.is_some());
    let synced = result.unwrap();
    assert!(synced.contains("SHARED1"));
    assert!(synced.contains("SHARED2"));
    assert!(!synced.contains("LOCAL1"));
    assert!(!synced.contains("LOCAL2"));
}

#[test]
fn test_leading_whitespace_tags_are_recognized() {
    let content = "export SHARED=\"shared\"\n  # drifters::exclude::start\nexport LOCAL=\"local\"\n  # drifters::exclude::stop\nexport OTHER=\"other\"\n";
    let result = extract_syncable_content(content, "#").unwrap();
    assert!(result.is_some());
    let synced = result.unwrap();
    assert!(synced.contains("export SHARED"));
    assert!(synced.contains("export OTHER"));
    assert!(!synced.contains("export LOCAL"));
}

#[test]
fn test_inline_tags_are_ignored() {
    let content = "export VAR=\"val\"  # drifters::exclude::start\nexport OTHER=\"other\"\n";
    let result = extract_syncable_content(content, "#").unwrap();
    assert!(result.is_none());
}

#[test]
fn test_detect_comment_syntax() {
    assert_eq!(detect_comment_syntax("test.sh"), "#");
    assert_eq!(detect_comment_syntax("config.py"), "#");
    assert_eq!(detect_comment_syntax("app.js"), "//");
    assert_eq!(detect_comment_syntax("main.rs"), "//");
    assert_eq!(detect_comment_syntax("init.lua"), "--");
    assert_eq!(detect_comment_syntax(".vimrc"), "\"");
}

#[test]
fn test_unclosed_exclude_block_extract() {
    let content = "export SHARED=\"shared\"\n\
                   # drifters::exclude::start\n\
                   export LOCAL=\"local\"\n";
    let result = extract_syncable_content(content, "#");
    assert!(result.is_err(), "expected Err for unclosed exclude block");
    assert!(result.unwrap_err().to_string().contains("unclosed"));
}

#[test]
fn test_unclosed_exclude_block_merge() {
    let local = "# drifters::exclude::start\nexport LOCAL=\"local\"\n";
    let synced = "export SHARED=\"shared\"\n\
                  # drifters::exclude::start\n\
                  # drifters::exclude::stop\n";
    let result = merge_synced_content(local, synced, "#");
    assert!(result.is_err(), "expected Err for unclosed exclude block in local");
    assert!(result.unwrap_err().to_string().contains("unclosed"));
}

#[test]
fn extract_keeps_tags_and_drops_bodies_exactly() {
    let content = "a\n# drifters::exclude::start\nsecret\n# drifters::exclude::stop\nb\n";
    let synced = extract_syncable_content(content, "#").unwrap().unwrap();
    assert_eq!(synced, "a\n# drifters::exclude::start\n# drifters::exclude::stop\nb\n");
}

#[test]
fn extract_ends_every_line_and_drops_carriage_returns() {
    let content = "a\r\n# drifters::exclude::start\r\nx\r\n# drifters::exclude::stop\r\nb";
    let synced = extract_syncable_content(content, "#").unwrap().unwrap();
    assert_eq!(synced, "a\n# drifters::exclude::start\n# drifters::exclude::stop\nb\n");
}

#[test]
fn empty_content_has_no_tags() {
    assert_eq!(extract_syncable_content("", "#").unwrap(), None);
}

#[test]
fn round_trip_restores_local_content() {
    let local = "top\n# drifters::exclude::start\nexport TOKEN=1\n# drifters::exclude::stop\nmiddle\n  # drifters::exclude::start\nalias x=y\n  # drifters::exclude::stop\nend\n";
    let synced = extract_syncable_content(local, "#").unwrap().unwrap();
    let back = merge_synced_content(local, &synced, "#").unwrap();
    assert_eq!(back, local);
}

#[test]
fn merge_preserves_local_exclude_body() {
    let local = "a\n# drifters::exclude::start\nX\n# drifters::exclude::stop\n";
    let incoming = "b\n# drifters::exclude::start\n# drifters::exclude::stop\nc\n";
    let out = merge_synced_content(local, incoming, "#").unwrap();
    assert!(out.contains("X"));
    assert_eq!(out, "b\n# drifters::exclude::start\nX\n# drifters::exclude::stop\nc\n");
}

#[test]
fn merge_without_local_section_keeps_incoming_tags() {
    let local = "plain\n";
    let incoming = "b\n# drifters::exclude::start\nremote\n# drifters::exclude::stop\nc\n";
    let out = merge_synced_content(local, incoming, "#").unwrap();
    assert_eq!(out, "b\n# drifters::exclude::start\n# drifters::exclude::stop\nc\n");
}

#[test]
fn merge_with_slash_comments() {
    let local = "// drifters::exclude::start\nlocal();\n// drifters::exclude::stop\n";
    let incoming = "shared();\n// drifters::exclude::start\n// drifters::exclude::stop\n";
    let out = merge_synced_content(local, incoming, "//").unwrap();
    assert_eq!(out, "shared();\n// drifters::exclude::start\nlocal();\n// drifters::exclude::stop\n");
}

#[test]
fn exclude_sections_are_listed_in_order() {
    let content = "x\n# S\none\n# T\ny\n# S\ntwo\n# T\n";
    let secs = extract_exclude_sections(content, "# S", "# T").unwrap();
    assert_eq!(secs, vec!["# S\none\n# T\n".to_string(), "# S\ntwo\n# T\n".to_string()]);
}

#[test]
fn exclude_sections_unclosed_is_error() {
    let content = "# S\none\n";
    assert!(extract_exclude_sections(content, "# S", "# T").is_err());
}

#[test]
fn comment_syntax_uses_last_extension() {
    assert_eq!(detect_comment_syntax("init.lua.bak"), "#");
    assert_eq!(detect_comment_syntax("query.sql"), "--");
    assert_eq!(detect_comment_syntax("plugin.vim"), "\"");
    assert_eq!(detect_comment_syntax("my_vimrc_backup.txt"), "\"");
    assert_eq!(detect_comment_syntax("dir.d/.bashrc"), "#");
    assert_eq!(detect_comment_syntax("src/lib.hpp"), "//");
    assert_eq!(detect_comment_syntax("Makefile"), "#");
}

#[test]
fn format_from_extension() {
    assert_eq!(detect_format("settings.json"), FileFormat::Json);
    assert_eq!(detect_format("a/b.jsonc"), FileFormat::Json);
    assert_eq!(detect_format("c.yml"), FileFormat::Yaml);
    assert_eq!(detect_format("Cargo.toml"), FileFormat::Toml);
    assert_eq!(detect_format("x.zsh"), FileFormat::Shell);
    assert_eq!(detect_format(".zshrc"), FileFormat::Text);
    assert_eq!(get_comment_syntax(&FileFormat::Json), "//");
    assert_eq!(get_comment_syntax(&FileFormat::Yaml), "#");
}

#[test]
fn fallback_section_keeps_its_stop_tag() {
    let local = "# drifters::exclude::start\nX\n# drifters::exclude::stop\n";
    let incoming = "a\n# drifters::exclude::start\n# drifters::exclude::stop\nb\n# drifters::exclude::start\n# drifters::exclude::stop\nc\n";
    let out = merge_synced_content(local, incoming, "#").unwrap();
    assert_eq!(
        out,
        "a\n# drifters::exclude::start\nX\n# drifters::exclude::stop\nb\n# drifters::exclude::start\n# drifters::exclude::stop\nc\n"
    );
    assert!(extract_syncable_content(&out, "#").unwrap().is_some());
}

#[test]
fn unclosed_incoming_section_is_an_error() {
    let local = "plain\n";
    let incoming = "a\n# drifters::exclude::start\nb\n";
    let result = merge_synced_content(local, incoming, "#");
    assert!(result.is_err());
    assert!(result.unwrap_err().to_string().contains("unclosed"));
}

#[test]
fn extension_ignores_trailing_separator() {
    assert_eq!(detect_comment_syntax("nvim/init.lua/"), "--");
    assert_eq!(detect_format("conf.d/app.yaml//"), FileFormat::Yaml);
}
