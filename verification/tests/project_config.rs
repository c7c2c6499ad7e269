use sigil::project::{
    find_project_root, is_project_executable_source, parse_project_config,
    validate_project_default_entrypoint, ProjectConfig, ProjectConfigError, ProjectLayout,
    RawProjectConfig, PROJECT_MAIN_REQUIRED, UNEXPECTED,
};

/// Reads `sigil.json` as the command-line tool does: an object with the
/// string fields `name` and `version`, both required, and no other field.
fn raw_from_json(source: &str) -> Result<RawProjectConfig, String> {
    let value: serde_json::Value = serde_json::from_str(source).map_err(|e| e.to_string())?;
    let object = match value.as_object() {
        Some(object) => object,
        None => return Err("invalid type: expected struct RawProjectConfigJson".to_string()),
    };
    for key in object.keys() {
        if key != "name" && key != "version" {
            return Err(format!("unknown field `{}`, expected `name` or `version`", key));
        }
    }
    let field = |key: &str| -> Result<String, String> {
        match object.get(key) {
            None => Err(format!("missing field `{}`", key)),
            Some(serde_json::Value::String(text)) => Ok(text.clone()),
            Some(other) => Err(format!("invalid type: {}, expected a string", other)),
        }
    };
    let name = field("name")?;
    let version = field("version")?;
    Ok(RawProjectConfig { name, version })
}

fn parse(source: &str) -> Result<ProjectConfig, ProjectConfigError> {
    parse_project_config(
        "/tmp/demo/sigil.json".to_string(),
        "/tmp/demo".to_string(),
        raw_from_json(source),
    )
}

fn parsed_project(root: &str) -> ProjectConfig {
    parse_project_config(
        format!("{}/sigil.json", root),
        root.to_string(),
        raw_from_json(r#"{"name":"demo","version":"0.1.0"}"#),
    )
    .unwrap()
}

#[test]
fn valid_config_requires_name_and_version_and_uses_canonical_layout() {
    let config = parse(r#"{"name":"demo","version":"0.1.0"}"#).unwrap();

    assert_eq!(config.layout.src, "src");
    assert_eq!(config.layout.tests, "tests");
    assert_eq!(config.layout.out, ".local");
}

#[test]
fn config_rejects_unknown_fields() {
    let err = parse(
        r#"{
  "name":"demo",
  "version":"0.1.0",
  "extra":true
}"#,
    )
    .unwrap_err();

    assert!(err.message().contains("unknown field `extra`"));
}

#[test]
fn config_rejects_missing_name() {
    let err = parse(r#"{"version":"0.1.0"}"#).unwrap_err();

    assert!(err.message().contains("missing field `name`"));
}

#[test]
fn config_rejects_empty_version() {
    let err = parse(r#"{"name":"demo","version":"   "}"#).unwrap_err();

    assert!(err
        .message()
        .contains("field `version` must be a non-empty string"));
}

#[test]
fn config_rejects_blank_name_before_version() {
    let err = parse(r#"{"name":" \t","version":""}"#).unwrap_err();
    assert_eq!(
        err.message(),
        "invalid sigil.json at /tmp/demo/sigil.json: field `name` must be a non-empty string"
    );
    assert_eq!(err.code(), UNEXPECTED);
}

#[test]
fn reader_errors_become_invalid_config() {
    let err = parse_project_config(
        "/p/sigil.json".to_string(),
        "/p".to_string(),
        Err("missing field `name` at line 1 column 2".to_string()),
    )
    .unwrap_err();
    assert_eq!(
        err.message(),
        "invalid sigil.json at /p/sigil.json: missing field `name` at line 1 column 2"
    );
    assert_eq!(
        err.details(),
        r#"{"message":"missing field `name` at line 1 column 2","path":"/p/sigil.json"}"#
    );
}

#[test]
fn default_layout_is_canonical() {
    let layout = ProjectLayout::default();
    assert_eq!(layout.src, "src");
    assert_eq!(layout.tests, "tests");
    assert_eq!(layout.out, ".local");
}

#[test]
fn library_only_projects_can_omit_src_main() {
    let project = parsed_project("/work/library-only");
    let files = vec!["/work/library-only/src/helper.lib.sigil".to_string()];

    validate_project_default_entrypoint(&project, &files, false).unwrap();
}

#[test]
fn executable_projects_require_src_main() {
    let project = parsed_project("/work/missing-main");
    let files = vec!["/work/missing-main/src/demo.sigil".to_string()];
    let err = validate_project_default_entrypoint(&project, &files, false).unwrap_err();

    assert_eq!(err.code(), PROJECT_MAIN_REQUIRED);
    assert!(err.message().contains("missing src/main.sigil"));
    assert_eq!(
        err.details(),
        r#"{"executableSources":["/work/missing-main/src/demo.sigil"],"missingPath":"/work/missing-main/src/main.sigil","projectRoot":"/work/missing-main"}"#
    );
}

#[test]
fn executable_projects_with_src_main_are_valid() {
    let project = parsed_project("/work/has-main");
    let files = vec![
        "/work/has-main/src/demo.sigil".to_string(),
        "/work/has-main/src/main.sigil".to_string(),
    ];

    validate_project_default_entrypoint(&project, &files, true).unwrap();
}

#[test]
fn executable_sources_exclude_libraries_and_other_files() {
    assert!(is_project_executable_source(&"src/a.sigil".to_string()));
    assert!(!is_project_executable_source(&"src/a.lib.sigil".to_string()));
    assert!(!is_project_executable_source(&"src/notes.txt".to_string()));
    assert!(!is_project_executable_source(&"src/..".to_string()));
    assert!(is_project_executable_source(&".sigil".to_string()));
}

#[test]
fn missing_main_lists_only_executables_in_order() {
    let project = parsed_project("/r");
    let files = vec![
        "/r/src/b.sigil".to_string(),
        "/r/src/lib/util.lib.sigil".to_string(),
        "/r/src/lib/a.sigil".to_string(),
        "/r/src/readme.md".to_string(),
    ];
    match validate_project_default_entrypoint(&project, &files, false).unwrap_err() {
        ProjectConfigError::MissingProjectMain { root, main_path, executable_sources } => {
            assert_eq!(root, "/r");
            assert_eq!(main_path, "/r/src/main.sigil");
            assert_eq!(
                executable_sources,
                vec!["/r/src/b.sigil".to_string(), "/r/src/lib/a.sigil".to_string()]
            );
        }
        other => panic!("unexpected error {:?}", other),
    }
}

#[test]
fn project_root_is_nearest_directory_with_config() {
    let marked = ["/home/u/proj/sigil.json", "/home/sigil.json"];
    let probe = |path: &String| marked.contains(&path.as_str());
    assert_eq!(
        find_project_root(&"/home/u/proj/src/deep".to_string(), false, probe),
        Some("/home/u/proj".to_string())
    );
    assert_eq!(
        find_project_root(&"/home/u/proj/src/main.sigil".to_string(), true, probe),
        Some("/home/u/proj".to_string())
    );
    assert_eq!(
        find_project_root(&"/home/other".to_string(), false, probe),
        Some("/home".to_string())
    );
}

#[test]
fn project_root_search_stops_at_filesystem_root() {
    let probe = |_: &String| false;
    assert_eq!(find_project_root(&"/a/b".to_string(), false, probe), None);
    assert_eq!(find_project_root(&"/".to_string(), true, probe), None);
}

#[test]
fn string_details_are_escaped() {
    let err = parse_project_config(
        "C:\\p\\sigil.json".to_string(),
        "C:\\p".to_string(),
        Err("bad \"quote\"\n".to_string()),
    )
    .unwrap_err();
    assert_eq!(
        err.details(),
        "{\"message\":\"bad \\\"quote\\\"\\n\",\"path\":\"C:\\\\p\\\\sigil.json\"}"
    );
}

#[test]
fn searching_again_from_the_found_root_finds_it() {
    let marked = ["/home/u/proj/sigil.json", "/home/sigil.json"];
    let probe = |path: &String| marked.contains(&path.as_str());
    let root = find_project_root(&"/home/u/proj/src/main.sigil".to_string(), true, probe).unwrap();
    assert_eq!(find_project_root(&root, false, probe), Some(root.clone()));
}
