use disperse::manifest::{
    find_last_version_in_files, find_name_in_pyproject_toml, find_version_in_pyproject,
    find_version_in_toml, parse_document, pyproject_uses_hatch_vcs, update_version_in_pyproject,
    update_version_in_toml, VersionLineFile,
};
use disperse::{Status, Version};

#[test]
fn test_find_version_in_toml() {
    let text = "[package]\nversion = \"0.1.0\"\n";
    let version = find_version_in_toml(text).unwrap();
    assert_eq!(version, "0.1.0".parse().unwrap());

    let text = "[package]\nversion = { workspace = true }\n[workspace]\npackage = { version = \"0.2.0\" }\n";
    let version = find_version_in_toml(text).unwrap();
    assert_eq!(version, "0.2.0".parse().unwrap());
}

#[test]
fn test_find_version_in_toml_error() {
    let text = "[package]\nversion = 0.1.0\n";
    assert!(find_version_in_toml(text).is_err());

    let text = "[package]\nversion = { workspace = true }\n[workspace]\npackage = { version = 0.2.0 }\n";
    assert!(find_version_in_toml(text).is_err());
}

#[test]
fn test_update_version_in_toml() {
    let text = "[package]\nversion = \"0.1.0\"\n";
    let mut parsed_toml: toml_edit::DocumentMut = text.parse().unwrap();
    update_version_in_toml(&mut parsed_toml, "0.2.0").unwrap();
    assert_eq!(parsed_toml.to_string(), "[package]\nversion = \"0.2.0\"\n");

    let text = "[package]\nversion = \"0.1.0\"\n[dependencies.test]\nversion = \"0.3.0\"\n";
    let mut parsed_toml: toml_edit::DocumentMut = text.parse().unwrap();
    update_version_in_toml(&mut parsed_toml, "0.2.0").unwrap();
    assert_eq!(
        parsed_toml.to_string(),
        "[package]\nversion = \"0.2.0\"\n[dependencies.test]\nversion = \"0.3.0\"\n"
    );

    let text = "[package]\nversion = { workspace = true }\n[workspace]\npackage = { version = \"0.1.0\" }\n";
    let mut parsed_toml: toml_edit::DocumentMut = text.parse().unwrap();
    update_version_in_toml(&mut parsed_toml, "0.2.0").unwrap();
    assert_eq!(
        parsed_toml.to_string(),
        "[package]\nversion = { workspace = true }\n[workspace]\npackage = { version = \"0.2.0\" }\n"
    );

    let text = "[workspace]\npackage = { version = \"0.1.0\" }\n";
    let mut parsed_toml: toml_edit::DocumentMut = text.parse().unwrap();
    update_version_in_toml(&mut parsed_toml, "0.2.0").unwrap();
    assert_eq!(parsed_toml.to_string(), "[workspace]\npackage = { version = \"0.2.0\" }\n");
}

#[test]
fn test_update_version_in_toml_invalid() {
    let text = "";
    let mut parsed_toml: toml_edit::DocumentMut = text.parse().unwrap();
    let result = update_version_in_toml(&mut parsed_toml, "0.2.0");
    assert!(result.is_err());
}

#[test]
fn unparseable_manifest_is_a_parse_error() {
    assert!(matches!(find_version_in_toml("[package"), Err(disperse::manifest::Error::Parse(_))));
    assert!(parse_document("a = ").is_none());
}

#[test]
fn python_manifests() {
    let doc = parse_document("[project]\nname = \"foo\"\nversion = \"1.2\"\n").unwrap();
    assert_eq!(find_version_in_pyproject(&doc).unwrap(), Some("1.2".parse().unwrap()));
    assert_eq!(find_name_in_pyproject_toml(&doc), Some("foo".to_string()));
    assert!(!pyproject_uses_hatch_vcs(&doc));

    let mut doc = parse_document("[project]\nversion = \"1.2\"\n").unwrap();
    assert!(update_version_in_pyproject(&mut doc, &"1.3".parse().unwrap()));
    assert_eq!(doc.to_string(), "[project]\nversion = \"1.3\"\n");

    let mut dynamic = parse_document("[project]\ndynamic = [\"version\"]\n[tool.hatch.version]\nsource = \"vcs\"\n").unwrap();
    assert!(!update_version_in_pyproject(&mut dynamic, &"1.3".parse().unwrap()));
    assert!(pyproject_uses_hatch_vcs(&dynamic));
    assert_eq!(find_version_in_pyproject(&dynamic).unwrap(), None);

    let bad = parse_document("[project]\nversion = \"one\"\n").unwrap();
    assert!(find_version_in_pyproject(&bad).is_err());
}

#[test]
fn last_version_in_files_follows_the_order() {
    let cargo = parse_document("[package]\nversion = \"0.5.0\"\n").unwrap();
    let py = parse_document("[project]\nversion = \"9.9\"\n").unwrap();
    assert_eq!(
        find_last_version_in_files(Some(&cargo), Some(&py), None, &[]).unwrap(),
        Some(("0.5.0".parse().unwrap(), None))
    );
    assert_eq!(
        find_last_version_in_files(None, Some(&py), None, &[]).unwrap(),
        Some(("9.9".parse().unwrap(), None))
    );
    let hatch = parse_document("[tool.hatch.version]\nsource = \"vcs\"\n").unwrap();
    assert!(find_last_version_in_files(None, Some(&hatch), None, &[]).is_err());
    assert_eq!(
        find_last_version_in_files(None, Some(&hatch), Some("2.0".parse().unwrap()), &[]).unwrap(),
        Some(("2.0".parse().unwrap(), None))
    );
    let files = vec![
        VersionLineFile { new_line: "__version__ = $TUPLED_VERSION".to_string(), lines: vec!["x = 1".to_string()] },
        VersionLineFile {
            new_line: "version = $STATUS_TUPLED_VERSION".to_string(),
            lines: vec!["version = (1, 2, 3, 'dev', 0)".to_string()],
        },
    ];
    assert_eq!(
        find_last_version_in_files(None, None, None, &files).unwrap(),
        Some((Version { major: 1, minor: Some(2), micro: Some(3) }, Some(Status::Dev)))
    );
    assert_eq!(find_last_version_in_files(None, None, None, &[]).unwrap(), None);
}

#[test]
fn inherited_version_without_workspace_table_is_refused() {
    let text = "[package]\nversion = { workspace = true }\n";
    let mut doc: toml_edit::DocumentMut = text.parse().unwrap();
    assert!(update_version_in_toml(&mut doc, "0.2.0").is_err());
    assert_eq!(doc.to_string(), text);

    let text = "[package]\nname = \"x\"\n";
    let mut doc: toml_edit::DocumentMut = text.parse().unwrap();
    assert!(update_version_in_toml(&mut doc, "0.2.0").is_err());
    assert_eq!(doc.to_string(), text);
}
