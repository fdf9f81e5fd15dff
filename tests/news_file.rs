use disperse::news_file::{
    check_version, date_is_placeholder, expand_template, news_add_pending, news_find_pending,
    news_mark_released, parse_version_line, skip_header, Error,
};
use disperse::Version;

fn lines(ls: &[&str]) -> Vec<Vec<u8>> {
    ls.iter().map(|l| l.as_bytes().to_vec()).collect()
}

#[test]
fn test_parse_version_line() {
    let (version, date, line_format, pending) =
        parse_version_line("1.2.3 2021-01-01").expect("parse failed");
    assert_eq!(version, Some("1.2.3"));
    assert_eq!(date, Some("2021-01-01"));
    assert_eq!(line_format, "%(version)s %(date)s");
    assert!(!pending);

    let (version, date, line_format, pending) =
        parse_version_line("1.2.3 (2021-01-01)").expect("parse failed");
    assert_eq!(version, Some("1.2.3"));
    assert_eq!(date, Some("2021-01-01"));
    assert_eq!(line_format, "%(version)s (%(date)s)");
    assert!(!pending);

    let (version, date, line_format, pending) = parse_version_line("1.2.3").expect("parse failed");
    assert_eq!(version, Some("1.2.3"));
    assert_eq!(date, None);
    assert_eq!(line_format, "%(version)s");
    assert!(!pending);

    let (version, date, line_format, pending) =
        parse_version_line("1.2.3 UNRELEASED").expect("parse failed");
    assert_eq!(version, Some("1.2.3"));
    assert_eq!(date, None);
    assert_eq!(line_format, "%(version)s %(date)s");
    assert!(pending);

    let (version, date, line_format, pending) =
        parse_version_line("1.2.3 NEXT").expect("parse failed");
    assert_eq!(version, Some("1.2.3"));
    assert_eq!(date, None);
    assert_eq!(line_format, "%(version)s %(date)s");
    assert!(pending);

    let (version, date, line_format, pending) =
        parse_version_line("1.2.3 %(date)s").expect("parse failed");
    assert_eq!(version, Some("1.2.3"));
    assert_eq!(date, None);
    assert_eq!(line_format, "%(version)s %(date)s");
    assert!(pending);
}

#[test]
fn test_news_add_pending() {
    let mut ls = lines(&[
        "Changelog for foo\n",
        "1.2.3 2021-01-01\n",
        "\n",
        "  * Change 1\n",
        "  * Change 2\n",
    ]);
    let new_version: Version = "1.2.4".parse().expect("parse failed");
    news_add_pending(&mut ls, &new_version).expect("add pending failed");
    assert_eq!(
        String::from_utf8(ls.concat()).unwrap(),
        [
            "Changelog for foo\n",
            "1.2.4 UNRELEASED\n",
            "\n",
            "1.2.3 2021-01-01\n",
            "\n",
            "  * Change 1\n",
            "  * Change 2\n",
        ]
        .concat()
    );
    assert_eq!(news_find_pending(&ls).unwrap(), Some("1.2.4".to_string()));
}

#[test]
fn test_news_find_pending() {
    let ls = lines(&[
        "Changelog for foo\n",
        "1.2.3 UNRELEASED\n",
        "\n",
        "  * Change 1\n",
        "  * Change 2\n",
    ]);
    let version = news_find_pending(&ls).expect("find pending failed");
    assert_eq!(version, Some("1.2.3".to_string()));
}

#[test]
fn test_news_pending_not_found() {
    let ls = lines(&[
        "Changelog for foo\n",
        "1.2.3 2021-01-01\n",
        "\n",
        "  * Change 1\n",
        "  * Change 2\n",
    ]);
    let version = news_find_pending(&ls).expect("find pending failed");
    assert_eq!(version, None);
}

#[test]
fn tab_separated_and_placeholder_versions() {
    let (version, date, template, pending) = parse_version_line("1.0\t2020-02-02").unwrap();
    assert_eq!((version, date, template.as_str(), pending), (Some("1.0"), Some("2020-02-02"), "%(version)s\t%(date)s", false));
    let (version, date, _, pending) = parse_version_line("UNRELEASED 2020-02-02").unwrap();
    assert_eq!((version, date, pending), (None, Some("2020-02-02"), true));
    let (version, date, template, pending) = parse_version_line("NEXT").unwrap();
    assert_eq!((version, date, template.as_str(), pending), (None, None, "%(version)s", true));
    let (_, date, _, pending) = parse_version_line("  2.0 NEXT release  ").unwrap();
    assert_eq!((date, pending), (None, true));
}

#[test]
fn odd_versions_are_errors() {
    assert!(matches!(parse_version_line("1.2.3a 2021-01-01"), Err(Error::OddVersion(v)) if v == "1.2.3a"));
    assert!(matches!(parse_version_line(""), Err(Error::OddVersion(_))));
    assert!(matches!(check_version("v1"), Err(Error::OddVersion(_))));
    assert!(matches!(check_version("%(version)s"), Ok(true)));
    assert!(matches!(check_version("1.2"), Ok(false)));
}

#[test]
fn date_placeholders() {
    assert!(date_is_placeholder("UNRELEASED"));
    assert!(date_is_placeholder("NEXT"));
    assert!(date_is_placeholder("NEXT week"));
    assert!(date_is_placeholder("%(date)s"));
    assert!(!date_is_placeholder("NEXTweek"));
    assert!(!date_is_placeholder("2021-01-01"));
}

#[test]
fn header_lines_are_skipped() {
    let ls = lines(&["Changelog for foo", "=================", "", "1.0 2020-01-01\n"]);
    assert_eq!(skip_header(&ls), 3);
    let ls = lines(&["Foo release notes", "-----", "1.0"]);
    assert_eq!(skip_header(&ls), 2);
    let ls = lines(&["1.0 2020-01-01\n"]);
    assert_eq!(skip_header(&ls), 0);
}

#[test]
fn a_file_of_header_only_has_no_entry() {
    let ls = lines(&["Changelog for foo", ""]);
    assert!(matches!(news_find_pending(&ls), Err(Error::NoEntry)));
    let mut ls2 = ls.clone();
    assert!(matches!(news_add_pending(&mut ls2, &"1.0".parse().unwrap()), Err(Error::NoEntry)));
    assert_eq!(ls2, ls);
}

#[test]
fn invalid_utf8_entry_is_invalid_data() {
    let ls = vec![b"Changelog for foo\n".to_vec(), vec![0xff, 0xfe, b'\n']];
    assert!(matches!(news_find_pending(&ls), Err(Error::InvalidData(_))));
}

#[test]
fn adding_pending_twice_is_refused() {
    let mut ls = lines(&["1.2.3 UNRELEASED\n", "  * x\n"]);
    let before = ls.clone();
    match news_add_pending(&mut ls, &"1.2.4".parse().unwrap()) {
        Err(Error::PendingExists { last_version, last_date }) => {
            assert_eq!(last_version, Some("1.2.3".parse().unwrap()));
            assert_eq!(last_date, None);
        }
        other => panic!("unexpected {:?}", other),
    }
    assert_eq!(ls, before);
}

#[test]
fn pending_entry_keeps_the_parenthesised_template() {
    let mut ls = lines(&["0.9 (2020-05-05)\n"]);
    news_add_pending(&mut ls, &"1.0".parse().unwrap()).unwrap();
    assert_eq!(ls, lines(&["1.0 (UNRELEASED)\n", "\n", "0.9 (2020-05-05)\n"]));
}

#[test]
fn mark_released_rewrites_the_entry_and_returns_notes() {
    let mut ls = lines(&[
        "Changelog for foo\n",
        "1.2.4 UNRELEASED\n",
        "\n",
        "  * Change 1\n",
        "\t* Change 2\n",
        "1.2.3 2021-01-01\n",
        "  * Old\n",
    ]);
    let notes = news_mark_released(&mut ls, &"1.2.4".parse().unwrap(), "2022-03-04").unwrap();
    assert_eq!(notes, "\n  * Change 1\n\t* Change 2\n");
    assert_eq!(String::from_utf8(ls[1].clone()).unwrap(), "1.2.4 2022-03-04\n");
    assert_eq!(ls.len(), 7);
}

#[test]
fn mark_released_errors() {
    let mut released = lines(&["1.2.3 2021-01-01\n"]);
    assert!(matches!(
        news_mark_released(&mut released, &"1.2.3".parse().unwrap(), "2022-01-01"),
        Err(Error::NoUnreleasedChanges)
    ));
    let mut other = lines(&["1.2.3 UNRELEASED\n"]);
    assert!(matches!(
        news_mark_released(&mut other, &"1.2.4".parse().unwrap(), "2022-01-01"),
        Err(Error::VersionMismatch { .. })
    ));
    assert_eq!(other, lines(&["1.2.3 UNRELEASED\n"]));
    let mut unnamed = lines(&["NEXT UNRELEASED\n"]);
    news_mark_released(&mut unnamed, &"2.0".parse().unwrap(), "2022-01-01").unwrap();
    assert_eq!(unnamed, lines(&["2.0 2022-01-01\n"]));
}

#[test]
fn templates_fill_both_slots() {
    let v: Version = "3.1".parse().unwrap();
    assert_eq!(expand_template("%(version)s (%(date)s)", &v, "UNRELEASED"), "3.1 (UNRELEASED)");
    assert_eq!(Error::NoUnreleasedChanges.to_string(), "No unreleased changes");
}

#[test]
fn newline_terminated_header_lines_are_skipped() {
    assert_eq!(skip_header(&lines(&["=\n", "x"])), 1);
    let ls = lines(&["Changelog for foo\n", "=================\n", "\n", "1.2.3 2021-01-01\n"]);
    assert_eq!(skip_header(&ls), 3);
    let ls = lines(&["Foo release notes\n", "-----\n", "1.0\n"]);
    assert_eq!(skip_header(&ls), 2);
}

#[test]
fn notes_stop_at_a_line_that_is_not_utf8() {
    let mut ls = vec![
        b"1.0 UNRELEASED\n".to_vec(),
        b"  * a\n".to_vec(),
        vec![b' ', 0xff, b'\n'],
        b"  * b\n".to_vec(),
    ];
    let notes = news_mark_released(&mut ls, &"1.0".parse().unwrap(), "2024-01-01").unwrap();
    assert_eq!(notes, "  * a\n");
}

#[test]
fn pending_entry_without_version_still_refuses() {
    let mut ls = lines(&["UNRELEASED UNRELEASED\n"]);
    match news_add_pending(&mut ls, &"1.0".parse().unwrap()) {
        Err(Error::PendingExists { last_version, last_date }) => {
            assert_eq!(last_version, None);
            assert_eq!(last_date, None);
        }
        other => panic!("unexpected {:?}", other),
    }
    let mut bad = lines(&["1..2 UNRELEASED\n"]);
    assert!(matches!(news_add_pending(&mut bad, &"1.0".parse().unwrap()), Err(Error::InvalidData(_))));
}
