use disperse::custom::{
    capture_groups, expand_version_vars, extract_version, reverse_version,
    update_version_in_lines, version_from_capture_matches, version_line_pattern, CaptureGroups,
    LineMatcher, UpdateError,
};
use disperse::{Status, Version};
use std::str::FromStr;

fn decode_with(template: &str, text: &str) -> (Option<Version>, Option<Status>) {
    let m = LineMatcher::new(version_line_pattern(template).as_str()).unwrap();
    version_from_capture_matches(&capture_groups(&m, text))
}

#[test]
fn custom_test_simple() {
    // expanding
    let text = "version = $VERSION";
    let new_version = Version::from_str("1.2.3").unwrap();
    let expanded = expand_version_vars(text, &new_version, Status::Final).unwrap();
    assert_eq!(expanded, "version = 1.2.3");

    // matching a line
    let (v, s) = decode_with("version = $VERSION", "version = 1.2.3");
    assert_eq!(v, Some(Version::from_str("1.2.3").unwrap()));
    assert_eq!(s, None);

    // reading back
    let (v, s) = reverse_version("version = $VERSION", &["version = 1.2.3", "version = 1.2.4"]);
    assert_eq!(v, Some(Version::from_str("1.2.3").unwrap()));
    assert_eq!(s, None);
}

#[test]
fn custom_test_status() {
    let text = "version = $STATUS_TUPLED_VERSION";
    let new_version = Version::from_str("1.2.3").unwrap();
    let expanded = expand_version_vars(text, &new_version, Status::Dev).unwrap();
    assert_eq!(expanded, "version = (1, 2, 3, \"dev\", 0)");

    let (v, s) = decode_with("version = $STATUS_TUPLED_VERSION", "version = (1, 2, 3, \"dev\", 0)");
    assert_eq!(v, Some(Version::from_str("1.2.3").unwrap()));
    assert_eq!(s, Some(Status::Dev));

    let (v, s) = reverse_version(
        "version = $STATUS_TUPLED_VERSION",
        &["version = (1, 2, 3, \"dev\", 0)", "version = (1, 2, 3, \"final\", 0)"],
    );
    assert_eq!(v, Some(Version::from_str("1.2.3").unwrap()));
    assert_eq!(s, Some(Status::Dev));
}

#[test]
fn test_update_version_in_file() {
    let mut lines = vec![b"version = [1.2.3]\n".to_vec()];
    update_version_in_lines(
        &mut lines,
        "version = [$VERSION]\n",
        None,
        &Version { major: 1, minor: Some(2), micro: Some(4) },
        Status::Final,
    )
    .unwrap();
    assert_eq!(lines.concat(), b"version = [1.2.4]\n");
}

#[test]
fn update_without_a_matching_line_fails() {
    let mut lines = vec![b"name = foo\n".to_vec()];
    let r = update_version_in_lines(
        &mut lines,
        "version = [$VERSION]\n",
        None,
        &Version { major: 1, minor: Some(2), micro: Some(4) },
        Status::Final,
    );
    assert!(matches!(r, Err(UpdateError::NoMatches(_))));
    assert_eq!(lines, vec![b"name = foo\n".to_vec()]);
}

#[test]
fn update_with_an_explicit_pattern() {
    let mut lines = vec![b"x\n".to_vec(), b"__version__ = (0, 1, 0)\n".to_vec()];
    update_version_in_lines(
        &mut lines,
        "__version__ = $TUPLED_VERSION\n",
        Some("^__version__ = "),
        &Version { major: 0, minor: Some(2), micro: Some(0) },
        Status::Final,
    )
    .unwrap();
    assert_eq!(lines[1], b"__version__ = (0, 2, 0)\n".to_vec());
    assert_eq!(lines[0], b"x\n".to_vec());
    let r = update_version_in_lines(
        &mut lines,
        "v",
        Some("(unclosed"),
        &Version { major: 0, minor: None, micro: None },
        Status::Final,
    );
    assert!(matches!(r, Err(UpdateError::InvalidRegex(_))));
}

#[test]
fn update_with_a_variable_without_value_fails() {
    let mut lines = vec![b"micro = 3\n".to_vec()];
    let r = update_version_in_lines(
        &mut lines,
        "micro = $MICRO_VERSION\n",
        Some("^micro = "),
        &Version { major: 1, minor: Some(2), micro: None },
        Status::Final,
    );
    assert!(matches!(r, Err(UpdateError::NoExpansion(_))));
}

#[test]
fn missing_micro_is_an_expansion_error() {
    let v = Version { major: 1, minor: Some(2), micro: None };
    assert!(expand_version_vars("$MICRO_VERSION", &v, Status::Final).is_err());
    assert!(expand_version_vars("$TUPLED_VERSION", &v, Status::Final).is_err());
    assert_eq!(expand_version_vars("$MAJOR_VERSION.$MINOR_VERSION", &v, Status::Final).unwrap(), "1.2");
    assert_eq!(expand_version_vars("$VERSION $UNKNOWN", &v, Status::Final).unwrap(), "1.2 $UNKNOWN");
}

#[test]
fn patterns_escape_the_template() {
    assert_eq!(version_line_pattern("a.b = $VERSION"), "a\\.b = (?P<version>.*)");
    assert_eq!(version_line_pattern("$FOO ($MAJOR_VERSION)"), "\\$FOO \\((?P<major_version>.*)\\)");
}

#[test]
fn components_read_separately() {
    let (v, s) = decode_with("$MAJOR_VERSION.$MINOR_VERSION.$MICRO_VERSION", "4.5.6");
    assert_eq!(v, Some(Version { major: 4, minor: Some(5), micro: Some(6) }));
    assert_eq!(s, None);
    assert_eq!(extract_version("version = 1.2.3"), (None, None));
    let (v, _) = decode_with("version = $VERSION", "version = abc");
    assert_eq!(v, None);
}

#[test]
fn later_groups_override_earlier_ones() {
    let caps = vec![
        CaptureGroups {
            major_version: Some("1".to_string()),
            minor_version: None,
            micro_version: None,
            version: None,
            tupled_version: None,
            status_tupled_version: Some("(2, 3, 4, 'final', 0)".to_string()),
        },
    ];
    assert_eq!(
        version_from_capture_matches(&caps),
        (Some(Version { major: 2, minor: Some(3), micro: Some(4) }), Some(Status::Final))
    );
    let none: Vec<CaptureGroups> = vec![];
    assert_eq!(version_from_capture_matches(&none), (None, None));
}
