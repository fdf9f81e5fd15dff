use disperse::manpage::{update_version_in_manpage, validate_manpage_updateable, Error};

#[test]
fn test_validate_manpage_updateable() {
    let b = b".TH BZR 1 \"2019-12-31\" \"Bazaar 2.7.0\" \"Bazaar Reference Manual\"".to_vec();
    validate_manpage_updateable(&[b]).unwrap();
}

#[test]
fn validation_needs_a_version_in_the_header() {
    let lines = vec![b".SH NAME".to_vec(), b".TH BZR 1 \"2019-12-31\" \"Bazaar\"".to_vec()];
    assert!(matches!(validate_manpage_updateable(&lines), Err(Error::NoMatches)));
}

#[test]
fn header_gets_new_version_and_date() {
    let mut lines = vec![
        b".\\\" comment".to_vec(),
        b".TH BZR 1 \"2019-12-31\" \"Bazaar 2.7.0\" \"Bazaar Reference Manual\"".to_vec(),
    ];
    let v = "2.8.0".parse().unwrap();
    update_version_in_manpage(&mut lines, &v, "2024-05-06", "May 2024").unwrap();
    assert_eq!(
        String::from_utf8(lines[1].clone()).unwrap(),
        ".TH BZR 1 2024-05-06 'Bazaar 2.8.0' 'Bazaar Reference Manual'"
    );
    assert_eq!(lines[0], b".\\\" comment".to_vec());

    let mut month = vec![b".TH foo 1 \"December 2019\" \"foo 1.0\" \"Manual\"".to_vec()];
    update_version_in_manpage(&mut month, &v, "2024-05-06", "May 2024").unwrap();
    assert_eq!(String::from_utf8(month[0].clone()).unwrap(), ".TH foo 1 'May 2024' 'foo 2.8.0' Manual");
}

#[test]
fn a_page_without_header_is_an_error() {
    let mut lines = vec![b".SH NAME".to_vec()];
    let v = "2.8.0".parse().unwrap();
    assert!(matches!(update_version_in_manpage(&mut lines, &v, "2024-05-06", "May 2024"), Err(Error::NoMatches)));
}
