//! Finding the last released version and the version to release next.
use crate::news_file::{
    entry_odd, first_entry, header_len, lines_view, news_find_pending, pending_version_of,
    entry_text, Error as NewsError,
};
use crate::tag::{expand_tag, tag_name, tag_version_text, unexpand_tag};
use crate::version::{
    can_increase, increase_version, increased, parse_version, range_eq, version_lt, Status,
    Version,
};
use crate::text::chars_of;
use vstd::prelude::*;
use vstd::utf8::valid_utf8;

verus! {

/// Why no pending version could be found.
#[derive(Debug)]
pub enum FindPendingVersionError {
    /// The pending entry names a version that does not read.
    OddPendingVersion(String),
    /// The changelog has no pending entry with a version.
    NoUnreleasedChanges,
    /// The changelog could not be read.
    Other(String),
    /// No changelog is configured, or it holds no entry.
    NotFound,
}

impl FindPendingVersionError {
    pub fn to_string(&self) -> String {
        match self {
            FindPendingVersionError::OddPendingVersion(e) => {
                let mut m = "Odd pending version: ".to_string();
                crate::text::push_str(&mut m, e.as_str());
                m
            },
            FindPendingVersionError::NotFound => "No pending version found".to_string(),
            FindPendingVersionError::Other(e) => {
                let mut m = "Other error: ".to_string();
                crate::text::push_str(&mut m, e.as_str());
                m
            },
            FindPendingVersionError::NoUnreleasedChanges => "No unreleased changes".to_string(),
        }
    }
}

/// The pending version of a changelog's lines, when one is configured.
pub fn find_pending_version(news_lines: Option<&[Vec<u8>]>) -> (r: Result<
    Version,
    FindPendingVersionError,
>)
    ensures
        news_lines is None ==> r matches Err(FindPendingVersionError::NotFound),
        news_lines matches Some(ls) ==> ({
            let lv = lines_view(ls@);
            let i = header_len(lv) as int;
            &&& (r matches Err(FindPendingVersionError::NotFound)) <==> i == lv.len()
            &&& (r matches Err(FindPendingVersionError::Other(_))) <==> (i < lv.len()
                && !valid_utf8(lv[i]))
            &&& (r matches Err(FindPendingVersionError::NoUnreleasedChanges)) <==> (first_entry(
                lv,
            ) is Some && pending_version_of(entry_text(lv)->0) is None)
            &&& (r matches Err(FindPendingVersionError::OddPendingVersion(_))) <==> (entry_odd(lv)
                || (first_entry(lv) is Some && pending_version_of(entry_text(lv)->0) is Some
                && parse_version(pending_version_of(entry_text(lv)->0)->0) is None))
            &&& r matches Ok(v) ==> (first_entry(lv) is Some && pending_version_of(
                entry_text(lv)->0,
            ) is Some && parse_version(pending_version_of(entry_text(lv)->0)->0) == Some(v))
        }),
{
    let lines = match news_lines {
        Some(ls) => ls,
        None => return Err(FindPendingVersionError::NotFound),
    };
    match news_find_pending(lines) {
        Ok(Some(v)) => match Version::parse(v.as_str()) {
            Ok(version) => Ok(version),
            Err(_) => Err(FindPendingVersionError::OddPendingVersion(v)),
        },
        Ok(None) => Err(FindPendingVersionError::NoUnreleasedChanges),
        Err(NewsError::OddVersion(e)) => Err(FindPendingVersionError::OddPendingVersion(e)),
        Err(NewsError::NoEntry) => Err(FindPendingVersionError::NotFound),
        Err(e) => {
            proof {
                let lv = lines_view(lines@);
                let i = header_len(lv) as int;
                crate::news_file::lemma_header_len_bound(lv);
                if i < lv.len() && valid_utf8(lv[i]) {
                    assert(entry_text(lv) is Some);
                    assert(first_entry(lv) is Some || entry_odd(lv));
                }
            }
            Err(FindPendingVersionError::Other(e.to_string()))
        },
    }
}

/// The version that reading `tag` with `template` gives, if any.
pub open spec fn tag_version(template: Seq<char>, tag: Seq<char>) -> Option<Version> {
    match tag_version_text(template, tag) {
        Some(x) => parse_version(x),
        None => None,
    }
}

/// The version of the first of `tags` that reads with `template`.
pub open spec fn first_tag_version(template: Seq<char>, tags: Seq<Seq<char>>) -> Option<Version>
    decreases tags.len(),
{
    if tags.len() == 0 {
        None
    } else if tag_version(template, tags[0]) is Some {
        tag_version(template, tags[0])
    } else {
        first_tag_version(template, tags.drop_first())
    }
}

pub open spec fn strings_view(ss: Seq<String>) -> Seq<Seq<char>> {
    ss.map_values(|s: String| s@)
}

/// The last released version among the tags of the newest revision that has
/// any: the first tag that reads with `tag_name`. It is `Final` when that
/// revision is the tip, else `Dev`.
pub fn find_last_version_in_tags(tags: &[String], tag_name: &str, at_tip: bool) -> (r: (
    Option<Version>,
    Option<Status>,
))
    ensures
        r.0 == first_tag_version(tag_name@, strings_view(tags@)),
        r.1 == if r.0 is Some {
            Some(
                if at_tip {
                    Status::Final
                } else {
                    Status::Dev
                },
            )
        } else {
            None::<Status>
        },
{
    let ghost tv = strings_view(tags@);
    let mut k: usize = 0;
    assert(tv.subrange(0, tv.len() as int) =~= tv);
    while k < tags.len()
        invariant
            tv == strings_view(tags@),
            k <= tags@.len(),
            first_tag_version(tag_name@, tv) == first_tag_version(
                tag_name@,
                tv.subrange(k as int, tv.len() as int),
            ),
        decreases tags@.len() - k,
    {
        let ghost rest = tv.subrange(k as int, tv.len() as int);
        assert(rest.drop_first() =~= tv.subrange(k + 1, tv.len() as int));
        assert(rest[0] == tags@[k as int]@);
        match unexpand_tag(tag_name, tags[k].as_str()) {
            Ok(v) => {
                let status = if at_tip {
                    Status::Final
                } else {
                    Status::Dev
                };
                return (Some(v), Some(status));
            },
            Err(_) => {},
        }
        k += 1;
    }
    (None, None)
}

/// The last released version: the one found in files, else the one found
/// in tags.
pub fn find_last_version(
    in_files: Option<(Version, Option<Status>)>,
    in_tags: (Option<Version>, Option<Status>),
) -> (r: (Option<Version>, Option<Status>))
    ensures
        in_files matches Some(f) ==> r == (Some(f.0), f.1),
        in_files is None && in_tags.0 is Some ==> r == in_tags,
        in_files is None && in_tags.0 is None ==> r == (None::<Version>, None::<Status>),
{
    match in_files {
        Some((v, s)) => (Some(v), s),
        None => match in_tags.0 {
            Some(v) => (Some(v), in_tags.1),
            None => (None, None),
        },
    }
}

/// Why no new version could be picked.
#[derive(Debug)]
pub enum PickError {
    /// The changelog names no usable pending version.
    Pending(FindPendingVersionError),
    /// No last version was found to start from.
    NoVersion,
    /// Raising the version would leave the range of its numbers.
    VersionOverflow,
}

impl PickError {
    pub fn to_string(&self) -> String {
        match self {
            PickError::Pending(e) => e.to_string(),
            PickError::NoVersion => "No version found".to_string(),
            PickError::VersionOverflow => "Version number out of range".to_string(),
        }
    }
}

/// `v` raised `n` times at its rightmost component.
pub open spec fn bumped(v: Version, n: nat) -> Version
    decreases n,
{
    if n == 0 {
        v
    } else {
        increased(bumped(v, (n - 1) as nat), -1)
    }
}

/// Whether a tag of that name exists.
pub open spec fn tag_taken(tags: Seq<Seq<char>>, name: Seq<char>) -> bool {
    tags.contains(name)
}

/// The rightmost component present.
pub open spec fn rightmost(v: Version) -> int {
    match (v.minor, v.micro) {
        (_, Some(x)) => x as int,
        (Some(x), None) => x as int,
        (None, None) => v.major as int,
    }
}

fn has_tag(tags: &[String], name: &String) -> (r: bool)
    ensures
        r == tag_taken(strings_view(tags@), name@),
{
    let nc = chars_of(name.as_str());
    let mut k: usize = 0;
    while k < tags.len()
        invariant
            nc@ == name@,
            k <= tags@.len(),
            forall|j: int| 0 <= j < k ==> tags@[j]@ != name@,
        decreases tags@.len() - k,
    {
        let tc = chars_of(tags[k].as_str());
        if range_eq(&tc, 0, tc.len(), &nc) {
            assert(tc@.subrange(0, tc@.len() as int) =~= tc@);
            assert(strings_view(tags@)[k as int] == name@);
            return true;
        }
        assert(tc@.subrange(0, tc@.len() as int) =~= tc@);
        k += 1;
    }
    assert forall|j: int| 0 <= j < strings_view(tags@).len() implies strings_view(tags@)[j]
        != name@ by {
        assert(strings_view(tags@)[j] == tags@[j]@);
    }
    false
}

/// The version to release: the pending one from the changelog; where none
/// is configured or found, the last version raised at its rightmost
/// component until its tag is not taken.
pub fn pick_new_version(
    pending: Result<Version, FindPendingVersionError>,
    last_version: Option<Version>,
    tag_template: &str,
    existing_tags: &[String],
) -> (r: Result<Version, PickError>)
    ensures
        pending matches Ok(v) ==> r == Ok::<Version, PickError>(v),
        (pending is Err && !(pending matches Err(FindPendingVersionError::NotFound))) ==> (r matches Err(PickError::Pending(_))),
        (pending matches Err(FindPendingVersionError::NotFound)) ==> ({
            let tags = strings_view(existing_tags@);
            &&& last_version is None <==> (r matches Err(PickError::NoVersion))
            &&& last_version is Some ==> (r is Ok || r matches Err(PickError::VersionOverflow))
            &&& r matches Ok(w) ==> exists|n: nat|
                w == bumped(last_version->0, n) && !tag_taken(
                    tags,
                    tag_name(tag_template@, w),
                ) && forall|m: nat|
                    m < n ==> tag_taken(tags, tag_name(tag_template@, #[trigger] bumped(last_version->0, m)))
            &&& (r matches Err(PickError::VersionOverflow)) ==> exists|n: nat|
                !can_increase(bumped(last_version->0, n), -1) && forall|m: nat|
                    m <= n ==> tag_taken(tags, tag_name(tag_template@, #[trigger] bumped(last_version->0, m)))
        }),
{
    match pending {
        Ok(v) => return Ok(v),
        Err(FindPendingVersionError::NotFound) => {},
        Err(e) => return Err(PickError::Pending(e)),
    }
    let mut v = match last_version {
        Some(v) => v,
        None => return Err(PickError::NoVersion),
    };
    let ghost start = v;
    let ghost tags = strings_view(existing_tags@);
    let ghost mut n: nat = 0;
    loop
        invariant
            tags == strings_view(existing_tags@),
            pending matches Err(FindPendingVersionError::NotFound),
            last_version == Some(start),
            v == bumped(start, n),
            forall|m: nat| m < n ==> tag_taken(tags, tag_name(tag_template@, #[trigger] bumped(start, m))),
        decreases i32::MAX - rightmost(v),
    {
        let name = expand_tag(tag_template, &v);
        if !has_tag(existing_tags, &name) {
            proof {
                let w = v;
                let lv0 = last_version->0;
                assert(lv0 == start);
                assert(forall|m: nat|
                    m < n ==> tag_taken(tags, tag_name(tag_template@, #[trigger] bumped(lv0, m))));
                assert(w == bumped(lv0, n) && !tag_taken(tags, tag_name(tag_template@, w)));
            }
            return Ok(v);
        }
        let can = match (v.minor, v.micro) {
            (_, Some(x)) => x < i32::MAX,
            (Some(x), None) => x < i32::MAX,
            (None, None) => v.major < i32::MAX,
        };
        if !can {
            let ghost lv0 = last_version->0;
            assert forall|m: nat| m <= n implies tag_taken(tags, tag_name(tag_template@, #[trigger] bumped(lv0, m))) by {
                if m == n {}
            }
            assert(!can_increase(bumped(lv0, n), -1));
            return Err(PickError::VersionOverflow);
        }
        increase_version(&mut v, -1);
        proof {
            assert forall|m: nat| m < n + 1 implies tag_taken(tags, tag_name(tag_template@, #[trigger] bumped(start, m))) by {
                if m == n {}
            }
            n = n + 1;
        }
    }
}

/// The version that the next development cycle starts on: the released one
/// raised at its rightmost component.
pub fn next_pending_version(released: &Version) -> (r: Option<Version>)
    ensures
        r is Some <==> can_increase(*released, -1),
        r matches Some(w) ==> w == increased(*released, -1) && version_lt(*released, w),
{
    let can = match (released.minor, released.micro) {
        (_, Some(x)) => x < i32::MAX,
        (Some(x), None) => x < i32::MAX,
        (None, None) => released.major < i32::MAX,
    };
    if !can {
        return None;
    }
    let mut w = Version { major: released.major, minor: released.minor, micro: released.micro };
    increase_version(&mut w, -1);
    proof {
        crate::version::lemma_increase_is_greater(*released, -1);
    }
    Some(w)
}

} // verus!
