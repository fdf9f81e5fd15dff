use disperse::discovery::{
    find_last_version, find_last_version_in_tags, find_pending_version, next_pending_version,
    pick_new_version, FindPendingVersionError, PickError,
};
use disperse::{Status, Version};

fn v(major: i32, minor: Option<i32>, micro: Option<i32>) -> Version {
    Version { major, minor, micro }
}

fn lines(ls: &[&str]) -> Vec<Vec<u8>> {
    ls.iter().map(|l| l.as_bytes().to_vec()).collect()
}

#[test]
fn pending_version_from_changelog() {
    let ls = lines(&["Changelog for foo\n", "1.2.3 UNRELEASED\n"]);
    assert_eq!(find_pending_version(Some(&ls)).unwrap(), v(1, Some(2), Some(3)));
    let released = lines(&["1.2.3 2021-01-01\n"]);
    assert!(matches!(find_pending_version(Some(&released)), Err(FindPendingVersionError::NoUnreleasedChanges)));
    let unnamed = lines(&["UNRELEASED UNRELEASED\n"]);
    assert!(matches!(find_pending_version(Some(&unnamed)), Err(FindPendingVersionError::NoUnreleasedChanges)));
    let odd = lines(&["1.x UNRELEASED\n"]);
    assert!(matches!(find_pending_version(Some(&odd)), Err(FindPendingVersionError::OddPendingVersion(_))));
    let unparseable = lines(&["1..2 UNRELEASED\n"]);
    assert!(matches!(find_pending_version(Some(&unparseable)), Err(FindPendingVersionError::OddPendingVersion(_))));
    let empty: Vec<Vec<u8>> = vec![];
    assert!(matches!(find_pending_version(Some(&empty)), Err(FindPendingVersionError::NotFound)));
    assert!(matches!(find_pending_version(None), Err(FindPendingVersionError::NotFound)));
}

#[test]
fn last_version_from_tags() {
    let tags = vec!["unrelated".to_string(), "v1.4.0".to_string()];
    assert_eq!(find_last_version_in_tags(&tags, "v$VERSION", true), (Some(v(1, Some(4), Some(0))), Some(Status::Final)));
    assert_eq!(find_last_version_in_tags(&tags, "v$VERSION", false), (Some(v(1, Some(4), Some(0))), Some(Status::Dev)));
    assert_eq!(find_last_version_in_tags(&tags, "release-$VERSION", true), (None, None));
}

#[test]
fn files_win_over_tags() {
    assert_eq!(
        find_last_version(Some((v(2, None, None), None)), (Some(v(1, None, None)), Some(Status::Final))),
        (Some(v(2, None, None)), None)
    );
    assert_eq!(
        find_last_version(None, (Some(v(1, None, None)), Some(Status::Dev))),
        (Some(v(1, None, None)), Some(Status::Dev))
    );
    assert_eq!(find_last_version(None, (None, None)), (None, None));
}

#[test]
fn picking_skips_taken_tags() {
    let tags = vec!["v1.2.3".to_string(), "v1.2.4".to_string()];
    let r = pick_new_version(Err(FindPendingVersionError::NotFound), Some(v(1, Some(2), Some(3))), "v$VERSION", &tags);
    assert_eq!(r.unwrap(), v(1, Some(2), Some(5)));
    let r = pick_new_version(Ok(v(3, None, None)), None, "v$VERSION", &tags);
    assert_eq!(r.unwrap(), v(3, None, None));
    let r = pick_new_version(Err(FindPendingVersionError::NotFound), None, "v$VERSION", &tags);
    assert!(matches!(r, Err(PickError::NoVersion)));
    let r = pick_new_version(Err(FindPendingVersionError::NoUnreleasedChanges), Some(v(1, None, None)), "v$VERSION", &tags);
    assert!(matches!(r, Err(PickError::Pending(FindPendingVersionError::NoUnreleasedChanges))));
    let top = vec!["v2147483647".to_string()];
    let r = pick_new_version(Err(FindPendingVersionError::NotFound), Some(v(i32::MAX, None, None)), "v$VERSION", &top);
    assert!(matches!(r, Err(PickError::VersionOverflow)));
}

#[test]
fn next_cycle_version_is_greater() {
    let released = v(1, Some(2), Some(3));
    let next = next_pending_version(&released).unwrap();
    assert_eq!(next, v(1, Some(2), Some(4)));
    assert!(next > released);
    assert!(next_pending_version(&v(1, Some(i32::MAX), None)).is_none());
}
