use disperse::tag::{expand_tag, unexpand_tag, UnexpandError};
use disperse::version::{increase_version, Error};
use disperse::{Status, Version};
use std::str::FromStr;

fn v(major: i32, minor: Option<i32>, micro: Option<i32>) -> Version {
    Version { major, minor, micro }
}

#[test]
fn test_from_tupled() {
    assert_eq!(
        Version::from_tupled("(1, 2, 3, \"dev\", 0)").unwrap(),
        (v(1, Some(2), Some(3)), Some(Status::Dev))
    );
    assert_eq!(Version::from_tupled("(1, 2, 3)").unwrap(), (v(1, Some(2), Some(3)), None));
    assert_eq!(Version::from_tupled("(1, 2)").unwrap(), (v(1, Some(2), None), None));
    assert_eq!(Version::from_tupled("(1)").unwrap(), (v(1, None, None), None));
    assert_eq!(Version::from_tupled("1").unwrap(), (v(1, None, None), None));
    assert!(Version::from_tupled("").is_err());
    assert!(Version::from_tupled("not_a_number").is_err());
    assert!(Version::from_tupled("(1, 2, not_a_number)").is_err());
}

#[test]
fn test_increase_version_major() {
    let mut x = v(1, Some(2), Some(3));
    increase_version(&mut x, 0);
    assert_eq!(x.major, 2);
    assert_eq!(x.minor, Some(2));
    assert_eq!(x.micro, Some(3));
}

#[test]
fn test_increase_version_minor() {
    let mut x = v(1, Some(2), Some(3));
    increase_version(&mut x, 1);
    assert_eq!(x.major, 1);
    assert_eq!(x.minor, Some(3));
    assert_eq!(x.micro, Some(3));

    let mut y = v(1, None, Some(3));
    increase_version(&mut y, 1);
    assert_eq!(y.major, 1);
    assert_eq!(y.minor, Some(1));
    assert_eq!(y.micro, Some(3));
}

#[test]
fn test_increase_version_micro() {
    let mut x = v(1, Some(2), Some(3));
    increase_version(&mut x, 2);
    assert_eq!(x.major, 1);
    assert_eq!(x.minor, Some(2));
    assert_eq!(x.micro, Some(4));

    let mut y = v(1, Some(2), None);
    increase_version(&mut y, 2);
    assert_eq!(y.major, 1);
    assert_eq!(y.minor, Some(2));
    assert_eq!(y.micro, Some(1));
}

#[test]
fn test_increase_version_auto() {
    let mut x = v(1, Some(2), Some(3));
    increase_version(&mut x, -1);
    assert_eq!(x.major, 1);
    assert_eq!(x.minor, Some(2));
    assert_eq!(x.micro, Some(4));

    let mut y = v(1, Some(2), None);
    increase_version(&mut y, -1);
    assert_eq!(y.major, 1);
    assert_eq!(y.minor, Some(3));
    assert_eq!(y.micro, None);

    let mut z = v(1, None, None);
    increase_version(&mut z, -1);
    assert_eq!(z.major, 2);
    assert_eq!(z.minor, None);
    assert_eq!(z.micro, None);
}

#[test]
fn test_expand_tag() {
    let x = v(1, Some(2), Some(3));
    assert_eq!(expand_tag("v$VERSION", &x), "v1.2.3");
    assert_eq!(expand_tag("release-$VERSION", &x), "release-1.2.3");
    assert_eq!(expand_tag("$VERSION", &x), "1.2.3");
}

#[test]
fn test_unexpand_tag() {
    let result = unexpand_tag("v$VERSION", "v1.2.3").unwrap();
    assert_eq!(result.major, 1);
    assert_eq!(result.minor, Some(2));
    assert_eq!(result.micro, Some(3));

    let result2 = unexpand_tag("release-$VERSION", "release-2.0.0").unwrap();
    assert_eq!(result2.major, 2);
    assert_eq!(result2.minor, Some(0));
    assert_eq!(result2.micro, Some(0));

    assert!(unexpand_tag("v$VERSION", "1.2.3").is_err());
    assert!(unexpand_tag("v$VERSION", "v-invalid").is_err());
}

#[test]
fn test_version_display() {
    assert_eq!(v(1, Some(2), Some(3)).to_string(), "1.2.3");
    assert_eq!(v(1, Some(2), None).to_string(), "1.2");
    assert_eq!(v(1, None, None).to_string(), "1");
}

#[test]
fn test_version_major() {
    assert_eq!(v(5, Some(2), Some(3)).major(), 5);
    assert_eq!(v(0, None, None).major(), 0);
}

#[test]
fn test_error_display() {
    let err = Error("test error message".to_string());
    assert_eq!(err.to_string(), "test error message");
    assert_eq!(format!("{}", err.to_string()), "test error message");
}

#[test]
fn parse_then_format_gives_the_text_back() {
    for s in ["1", "1.2", "1.2.3", "0.10.0", "2147483647.0.9"] {
        assert_eq!(Version::from_str(s).unwrap().to_string(), s);
    }
}

#[test]
fn parse_rejects_malformed_components() {
    assert!(Version::from_str("").is_err());
    assert!(Version::from_str("a.1").is_err());
    assert!(Version::from_str("1.x").is_err());
    assert!(Version::from_str("1.2.y").is_err());
    assert!(Version::from_str("2147483648").is_err());
    assert_eq!(Version::from_str("1.2.3.4").unwrap(), v(1, Some(2), Some(3)));
    assert_eq!(Version::from_str("-1.+2").unwrap(), v(-1, Some(2), None));
}

#[test]
fn negative_and_sparse_versions_format() {
    assert_eq!(v(-2147483648, None, None).to_string(), "-2147483648");
    assert_eq!(v(1, None, Some(3)).to_string(), "1.3");
}

#[test]
fn increments_are_strictly_greater() {
    let samples = [v(1, Some(2), Some(3)), v(1, Some(2), None), v(1, None, None), v(1, None, Some(3))];
    for s in samples.iter() {
        for idx in [-1isize, 0, 1, 2] {
            let mut w = s.clone();
            increase_version(&mut w, idx);
            assert!(w > *s, "{:?} at {} gave {:?}", s, idx, w);
        }
    }
}

#[test]
fn tag_round_trip() {
    for t in ["v$VERSION", "release-$VERSION", "$VERSION", "pkg-$VERSION-final", "v.$VERSION"] {
        for x in [v(1, Some(2), Some(3)), v(0, None, None), v(10, Some(0), None)] {
            assert_eq!(unexpand_tag(t, &expand_tag(t, &x)).unwrap(), x);
        }
    }
}

#[test]
fn unexpand_tag_is_anchored() {
    assert!(matches!(unexpand_tag("v$VERSION", "xv1.2.3"), Err(UnexpandError::TagMismatch)));
    assert!(matches!(unexpand_tag("v$VERSION-final", "v1.2-finalx"), Err(UnexpandError::TagMismatch)));
    assert!(matches!(unexpand_tag("v", "v"), Err(UnexpandError::TagMismatch)));
    assert!(matches!(unexpand_tag("v$VERSION", "v1.x"), Err(UnexpandError::InvalidVersion(_))));
}

#[test]
fn status_names() {
    assert_eq!(Status::Final.to_string(), "final");
    assert_eq!(Status::Dev.to_string(), "dev");
    assert_eq!(Status::from_str("dev").unwrap(), Status::Dev);
    assert_eq!(Status::from_str("final").unwrap(), Status::Final);
    assert!(Status::from_str("beta").is_err());
}

#[test]
fn tupled_statuses_and_limits() {
    assert_eq!(
        Version::from_tupled("(1, 2, 3, 'final', 0)").unwrap(),
        (v(1, Some(2), Some(3)), Some(Status::Final))
    );
    assert!(Version::from_tupled("(1, 2, 3, \"beta\", 0)").is_err());
    assert!(Version::from_tupled("(1, 2, 3, \"dev\", 0, 7)").is_err());
    assert_eq!(Version::from_tupled("((1, 2))").unwrap(), (v(1, Some(2), None), None));
}

#[test]
fn tupled_status_may_be_bare() {
    assert_eq!(
        Version::from_tupled("(1, 2, 3, dev, 0)").unwrap(),
        (v(1, Some(2), Some(3)), Some(Status::Dev))
    );
    assert_eq!(
        Version::from_tupled("(1, 2, 3, final)").unwrap(),
        (v(1, Some(2), Some(3)), Some(Status::Final))
    );
}
