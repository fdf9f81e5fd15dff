//! The decisions of a release run: the gates checked before anything is
//! changed, and the steps after the release commit, with the tag taken back
//! when publishing fails after it was pushed.
use crate::github::GitHubCIStatus;
use crate::text::{chars_of, push_str};
use crate::discovery::{
    bumped, pick_new_version, strings_view, tag_taken, FindPendingVersionError, PickError,
};
use crate::project_config::ProjectConfig;
use crate::tag::tag_name;
use crate::version::{range_eq, version_text, Version};
use vstd::prelude::*;

verus! {

/// Why a release did not complete.
#[derive(Debug)]
#[allow(inconsistent_fields)]
pub enum ReleaseError {
    /// The repository could not be opened.
    RepositoryUnavailable { url: String, reason: String },
    /// There are no changes since the last release.
    NoUnreleasedChanges,
    /// No version to release could be found.
    NoVersion,
    /// The pending version does not read.
    OddPendingVersion { version: String },
    NoSuchTag,
    /// The project has no release configuration.
    NoDisperseConfig,
    PreDistCommandFailed { command: String, status: Option<i32> },
    UploadCommandFailed { command: String, status: Option<i32>, reason: Option<String> },
    VerifyCommandFailed { command: String, status: Option<i32> },
    /// The tag for the new version exists already.
    ReleaseTagExists { project: String, tag: String, version: Version },
    CommitFailed(String),
    /// The last commit is younger than the configured minimum age in days.
    RecentCommits { min_commit_age: u64, commit_age: i64 },
    CreateTagFailed { tag_name: String, status: Option<i32>, reason: Option<String> },
    CIFailed(String),
    CIPending(String),
    PublishArtifactsFailed(String),
    DistCreationFailed,
    NoPublicBranch,
    Other(String),
}

// ---------------------------------------------------------------------------
// Gates before any change
// ---------------------------------------------------------------------------

/// The last commit is younger than the configured minimum, in days.
#[derive(Debug)]
pub struct RecentCommits {
    pub min_commit_age: u64,
    pub commit_age: i64,
}

/// Checks that the last commit is at least `release_timeout` days old,
/// where a minimum age is configured.
pub fn check_release_age(commit_age: i64, release_timeout: Option<u64>) -> (r: Result<
    (),
    RecentCommits,
>)
    ensures
        r is Err <==> (release_timeout matches Some(t) && (commit_age as int) < (t as int)),
        r matches Err(e) ==> e.commit_age == commit_age && Some(e.min_commit_age)
            == release_timeout,
{
    match release_timeout {
        Some(t) => {
            if commit_age < 0 || (commit_age as u64) < t {
                Err(RecentCommits { min_commit_age: t, commit_age })
            } else {
                Ok(())
            }
        },
        None => Ok(()),
    }
}

/// How a branch location is treated, by its URL scheme.
#[derive(Debug, Clone, Copy, PartialEq, Eq, Structural)]
pub enum BranchKind {
    /// A local working copy, whose public counterpart is looked up.
    Local,
    /// A location that is public already.
    Public,
    /// A scheme that is not supported.
    Unsupported,
}

/// The kind of a branch location with URL scheme `scheme`: `file` is local;
/// `git+ssh`, `https`, `http` and `git` are public.
pub open spec fn scheme_kind(scheme: Seq<char>) -> BranchKind {
    if scheme == seq!['f', 'i', 'l', 'e'] {
        BranchKind::Local
    } else if scheme == seq!['g', 'i', 't', '+', 's', 's', 'h'] || scheme == seq![
        'h',
        't',
        't',
        'p',
        's',
    ] || scheme == seq!['h', 't', 't', 'p'] || scheme == seq!['g', 'i', 't'] {
        BranchKind::Public
    } else {
        BranchKind::Unsupported
    }
}

pub fn classify_scheme(scheme: &str) -> (r: BranchKind)
    ensures
        r == scheme_kind(scheme@),
{
    let cs = chars_of(scheme);
    let n = cs.len();
    assert(cs@.subrange(0, n as int) =~= cs@);
    if range_eq(&cs, 0, n, &vec!['f', 'i', 'l', 'e']) {
        BranchKind::Local
    } else if range_eq(&cs, 0, n, &vec!['g', 'i', 't', '+', 's', 's', 'h']) || range_eq(
        &cs,
        0,
        n,
        &vec!['h', 't', 't', 'p', 's'],
    ) || range_eq(&cs, 0, n, &vec!['h', 't', 't', 'p']) || range_eq(
        &cs,
        0,
        n,
        &vec!['g', 'i', 't'],
    ) {
        BranchKind::Public
    } else {
        BranchKind::Unsupported
    }
}

pub open spec fn opt_string_view(o: Option<String>) -> Option<Seq<char>> {
    match o {
        Some(s) => Some(s@),
        None => None,
    }
}

/// The command that checks a release: the configured one, else `tox` where
/// a `tox.ini` exists, else `cargo test --all` where a `Cargo.toml` exists.
pub fn determine_verify_command(
    configured: Option<String>,
    has_tox_ini: bool,
    has_cargo_toml: bool,
) -> (r: Option<String>)
    ensures
        configured is Some ==> opt_string_view(r) == opt_string_view(configured),
        configured is None && has_tox_ini ==> opt_string_view(r) == Some(seq!['t', 'o', 'x']),
        configured is None && !has_tox_ini && has_cargo_toml ==> opt_string_view(r) == Some(
            seq!['c', 'a', 'r', 'g', 'o', ' ', 't', 'e', 's', 't', ' ', '-', '-', 'a', 'l', 'l'],
        ),
        configured is None && !has_tox_ini && !has_cargo_toml ==> r is None,
{
    if let Some(c) = configured {
        Some(c)
    } else if has_tox_ini {
        Some(crate::text::string_of(&vec!['t', 'o', 'x']))
    } else if has_cargo_toml {
        Some(
            crate::text::string_of(
                &vec!['c', 'a', 'r', 'g', 'o', ' ', 't', 'e', 's', 't', ' ', '-', '-', 'a', 'l', 'l'],
            ),
        )
    } else {
        None
    }
}

/// What a CI status means for the release: `Ok(false)` to go on, `Ok(true)`
/// to go on past a failing or pending CI that is ignored, or the error.
pub fn ci_gate(status: &GitHubCIStatus, ignore_ci: bool) -> (r: Result<bool, ReleaseError>)
    ensures
        status is Success ==> r == Ok::<bool, ReleaseError>(false),
        !(status is Success) && ignore_ci ==> r == Ok::<bool, ReleaseError>(true),
        status is Failed && !ignore_ci ==> r matches Err(ReleaseError::CIFailed(_)),
        status is Pending && !ignore_ci ==> r matches Err(ReleaseError::CIPending(_)),
{
    match status {
        GitHubCIStatus::Success => Ok(false),
        GitHubCIStatus::Failed { sha, html_url } => {
            if ignore_ci {
                Ok(true)
            } else {
                Err(ReleaseError::CIFailed(revision_message(sha, html_url)))
            }
        },
        GitHubCIStatus::Pending { sha, html_url } => {
            if ignore_ci {
                Ok(true)
            } else {
                Err(ReleaseError::CIPending(revision_message(sha, html_url)))
            }
        },
    }
}

fn revision_message(sha: &String, html_url: &Option<String>) -> String {
    let mut m = "for revision ".to_string();
    push_str(&mut m, sha.as_str());
    push_str(&mut m, ": ");
    match html_url {
        Some(u) => push_str(&mut m, u.as_str()),
        None => push_str(&mut m, "unknown"),
    }
    m
}

/// The changes between the last tagged revision and the tip.
#[derive(Debug)]
pub struct TreeDelta {
    pub added: usize,
    pub removed: usize,
    pub renamed: usize,
    pub kind_changed: usize,
    /// The modified files, each by its old and new path.
    pub modified: Vec<(Option<String>, Option<String>)>,
}

/// Whether a modification is of the changelog itself, at the same path.
pub open spec fn is_news_change(m: (Option<String>, Option<String>), news: Seq<char>) -> bool {
    opt_string_view(m.0) == Some(news) && opt_string_view(m.1) == Some(news)
}

/// The modified files other than the first change to the changelog.
pub open spec fn relevant_modified(ms: Seq<(Option<String>, Option<String>)>, news: Option<Seq<char>>) -> nat
    decreases ms.len(),
{
    if ms.len() == 0 {
        0
    } else {
        match news {
            Some(n) => if is_news_change(ms[0], n) {
                (ms.len() - 1) as nat
            } else {
                1 + relevant_modified(ms.drop_first(), news)
            },
            None => ms.len(),
        }
    }
}

fn opt_eq(o: &Option<String>, t: &str) -> (r: bool)
    ensures
        r == (opt_string_view(*o) == Some(t@)),
{
    match o {
        Some(s) => crate::text::range_eq_str(s.as_str(), &chars_of(t)),
        None => false,
    }
}

/// Whether there is something to release: the tip is not the last tagged
/// revision, and something changed since, a single change to the
/// changelog aside.
pub fn check_new_revisions(tip_is_tagged: bool, delta: &TreeDelta, news_file: Option<&str>) -> (r:
    bool)
    ensures
        r == (!tip_is_tagged && (delta.added + delta.removed + delta.renamed + delta.kind_changed
            + relevant_modified(
            delta.modified@,
            match news_file {
                Some(n) => Some(n@),
                None => None,
            },
        ) > 0)),
{
    if tip_is_tagged {
        return false;
    }
    if delta.added > 0 || delta.removed > 0 || delta.renamed > 0 || delta.kind_changed > 0 {
        return true;
    }
    let ghost news = match news_file {
        Some(n) => Some(n@),
        None => None::<Seq<char>>,
    };
    let ms = &delta.modified;
    match news_file {
        None => ms.len() > 0,
        Some(n) => {
            let mut k: usize = 0;
            assert(ms@.subrange(0, ms@.len() as int) =~= ms@);
            while k < ms.len()
                invariant
                    k <= ms@.len(),
                    news == Some(n@),
                    news_file == Some(n),
                    !tip_is_tagged,
                    ms@ == delta.modified@,
                    delta.added == 0 && delta.removed == 0 && delta.renamed == 0
                        && delta.kind_changed == 0,
                    relevant_modified(ms@, news) == k + relevant_modified(
                        ms@.subrange(k as int, ms@.len() as int),
                        news,
                    ),
                decreases ms@.len() - k,
            {
                let ghost rest = ms@.subrange(k as int, ms@.len() as int);
                assert(rest.drop_first() =~= ms@.subrange(k + 1, ms@.len() as int));
                if opt_eq(&ms[k].0, n) && opt_eq(&ms[k].1, n) {
                    assert(rest[0] == ms@[k as int]);
                    assert(is_news_change(rest[0], n@));
                    assert(relevant_modified(rest, news) == rest.len() - 1);
                    return ms.len() > 1;
                }
                k += 1;
            }
            assert(ms@.subrange(k as int, ms@.len() as int) =~= Seq::<
                (Option<String>, Option<String>),
            >::empty());
            ms.len() > 0
        },
    }
}

/// How one project of a batch went.
#[derive(Debug, Clone, Copy, PartialEq, Eq, Structural)]
pub enum BatchOutcome {
    Released,
    Skipped,
    Failed,
}

/// Skipped are the projects with nothing to do now: recent commits, a tag
/// that exists, no unreleased changes, no configuration. Every other error
/// is a failure.
pub open spec fn outcome_of(r: Result<(), ReleaseError>) -> BatchOutcome {
    match r {
        Ok(()) => BatchOutcome::Released,
        Err(ReleaseError::RecentCommits { .. }) | Err(ReleaseError::ReleaseTagExists { .. })
        | Err(ReleaseError::NoUnreleasedChanges) | Err(ReleaseError::NoDisperseConfig) =>
            BatchOutcome::Skipped,
        Err(_) => BatchOutcome::Failed,
    }
}

pub fn classify_outcome(r: &Result<(), ReleaseError>) -> (o: BatchOutcome)
    ensures
        o == outcome_of(*r),
{
    match r {
        Ok(()) => BatchOutcome::Released,
        Err(ReleaseError::RecentCommits { .. }) => BatchOutcome::Skipped,
        Err(ReleaseError::ReleaseTagExists { .. }) => BatchOutcome::Skipped,
        Err(ReleaseError::NoUnreleasedChanges) => BatchOutcome::Skipped,
        Err(ReleaseError::NoDisperseConfig) => BatchOutcome::Skipped,
        Err(_) => BatchOutcome::Failed,
    }
}

/// The counts of a batch.
#[derive(Debug, Clone, Copy, PartialEq, Eq, Structural)]
pub struct BatchTally {
    pub released: u64,
    pub skipped: u64,
    pub failed: u64,
}

impl BatchTally {
    pub fn new() -> (t: BatchTally)
        ensures
            t.released == 0 && t.skipped == 0 && t.failed == 0,
    {
        BatchTally { released: 0, skipped: 0, failed: 0 }
    }

    /// Counts one more project.
    pub fn record(&mut self, o: BatchOutcome)
        requires
            old(self).released < u64::MAX && old(self).skipped < u64::MAX && old(self).failed
                < u64::MAX,
        ensures
            final(self).released == old(self).released + if o == BatchOutcome::Released {
                1int
            } else {
                0int
            },
            final(self).skipped == old(self).skipped + if o == BatchOutcome::Skipped {
                1int
            } else {
                0int
            },
            final(self).failed == old(self).failed + if o == BatchOutcome::Failed {
                1int
            } else {
                0int
            },
    {
        match o {
            BatchOutcome::Released => self.released = self.released + 1,
            BatchOutcome::Skipped => self.skipped = self.skipped + 1,
            BatchOutcome::Failed => self.failed = self.failed + 1,
        }
    }

    /// The exit status of a batch: 0 in try mode; else 1 where a project
    /// failed, or, outside discovery, where one was skipped; else 0.
    pub fn exit_code(&self, discover: bool, try_mode: bool) -> (c: i32)
        ensures
            c == if try_mode {
                0i32
            } else if self.failed > 0 || (!discover && self.skipped > 0) {
                1i32
            } else {
                0i32
            },
    {
        if try_mode {
            0
        } else if self.failed > 0 || (!discover && self.skipped > 0) {
            1
        } else {
            0
        }
    }
}

/// One upload of a release's artifacts.
#[derive(Debug)]
pub enum PublishStep {
    /// Upload the Python artifacts to the package index.
    TwineUpload,
    /// Publish the crate to its registry.
    CargoPublish,
    /// Copy the artifacts to a tarball location.
    CopyTo(String),
}

pub open spec fn copies(locations: Seq<String>) -> Seq<PublishStep> {
    locations.map_values(|l: String| PublishStep::CopyTo(l))
}

/// The uploads of a release, in order: none in a dry run; else the Python
/// upload where there are Python artifacts and it is enabled, the crate
/// where there is a crate manifest, then each tarball location.
pub open spec fn publish_steps(
    dry_run: bool,
    has_python_artifacts: bool,
    twine_upload: Option<bool>,
    has_cargo_toml: bool,
    tarball_locations: Seq<String>,
) -> Seq<PublishStep> {
    if dry_run {
        Seq::<PublishStep>::empty()
    } else {
        (if has_python_artifacts && twine_upload == Some(true) {
            seq![PublishStep::TwineUpload]
        } else {
            Seq::<PublishStep>::empty()
        }) + (if has_cargo_toml {
            seq![PublishStep::CargoPublish]
        } else {
            Seq::<PublishStep>::empty()
        }) + copies(tarball_locations)
    }
}

/// The uploads that publishing a release makes.
pub fn plan_publish(
    dry_run: bool,
    has_python_artifacts: bool,
    twine_upload: Option<bool>,
    has_cargo_toml: bool,
    tarball_locations: &Vec<String>,
) -> (r: Vec<PublishStep>)
    ensures
        r@ == publish_steps(
            dry_run,
            has_python_artifacts,
            twine_upload,
            has_cargo_toml,
            tarball_locations@,
        ),
{
    let mut steps: Vec<PublishStep> = Vec::new();
    if dry_run {
        return steps;
    }
    if has_python_artifacts && twine_upload == Some(true) {
        steps.push(PublishStep::TwineUpload);
    }
    if has_cargo_toml {
        steps.push(PublishStep::CargoPublish);
    }
    let ghost head = steps@;
    let mut k: usize = 0;
    while k < tarball_locations.len()
        invariant
            k <= tarball_locations@.len(),
            steps@ == head + copies(tarball_locations@.subrange(0, k as int)),
        decreases tarball_locations@.len() - k,
    {
        steps.push(PublishStep::CopyTo(tarball_locations[k].clone()));
        assert(copies(tarball_locations@.subrange(0, k + 1)) =~= copies(
            tarball_locations@.subrange(0, k as int),
        ).push(PublishStep::CopyTo(tarball_locations@[k as int])));
        k += 1;
    }
    assert(tarball_locations@.subrange(0, tarball_locations@.len() as int) =~= tarball_locations@);
    steps
}

// ---------------------------------------------------------------------------
// The run up to the release commit
// ---------------------------------------------------------------------------

/// What a release run has found out before it changes anything.
#[derive(Debug)]
pub struct PreflightFacts {
    /// The URL scheme of the location that was opened.
    pub scheme: String,
    /// Whether a public counterpart was found for a local location.
    pub has_public_counterpart: bool,
    /// The CI status of the public branch, where a forge's CI was consulted.
    pub ci_status: Option<GitHubCIStatus>,
    /// Whether something changed since the last release, as
    /// `check_new_revisions` tells.
    pub has_new_revisions: bool,
    /// The age of the last commit, in days.
    pub commit_age: i64,
    /// The minimum age of the last commit, in days, where one is configured.
    pub release_timeout: Option<u64>,
}

/// The caller's overrides of the soft failures.
#[derive(Debug, Clone, Copy)]
pub struct PreflightFlags {
    pub ignore_ci: bool,
    pub force: bool,
}

/// Which soft failures were overridden.
#[derive(Debug, Clone, Copy, PartialEq, Eq, Structural)]
pub struct PreflightReport {
    pub ci_ignored: bool,
    pub recent_commits_forced: bool,
}

/// A public branch is established: the location is public, or it is local
/// and has a public counterpart.
pub open spec fn branch_established(f: PreflightFacts) -> bool {
    scheme_kind(f.scheme@) == BranchKind::Public || (scheme_kind(f.scheme@) == BranchKind::Local
        && f.has_public_counterpart)
}

/// CI was consulted and is not green.
pub open spec fn ci_not_green(f: PreflightFacts) -> bool {
    f.ci_status matches Some(st) && !(st is Success)
}

/// The last commit is younger than the configured minimum.
pub open spec fn too_recent(f: PreflightFacts) -> bool {
    f.release_timeout matches Some(t) && (f.commit_age as int) < (t as int)
}

/// The checks before any change, in order: a public branch, CI, new
/// revisions, the age of the last commit. CI and the age are soft: `ignore_ci`
/// and `force` override them.
pub fn preflight(facts: &PreflightFacts, flags: PreflightFlags) -> (r: Result<
    PreflightReport,
    ReleaseError,
>)
    ensures
        !branch_established(*facts) ==> r matches Err(ReleaseError::NoPublicBranch),
        (branch_established(*facts) && !flags.ignore_ci && (facts.ci_status matches Some(
            GitHubCIStatus::Failed { .. },
        ))) ==> (r matches Err(ReleaseError::CIFailed(_))),
        (branch_established(*facts) && !flags.ignore_ci && (facts.ci_status matches Some(
            GitHubCIStatus::Pending { .. },
        ))) ==> (r matches Err(ReleaseError::CIPending(_))),
        branch_established(*facts) && (flags.ignore_ci || !ci_not_green(*facts))
            && !facts.has_new_revisions ==> r matches Err(ReleaseError::NoUnreleasedChanges),
        branch_established(*facts) && (flags.ignore_ci || !ci_not_green(*facts))
            && facts.has_new_revisions && too_recent(*facts) && !flags.force ==> r == Err::<
            PreflightReport,
            ReleaseError,
        >(
            ReleaseError::RecentCommits {
                min_commit_age: facts.release_timeout->0,
                commit_age: facts.commit_age,
            },
        ),
        r is Ok <==> (branch_established(*facts) && (flags.ignore_ci || !ci_not_green(*facts))
            && facts.has_new_revisions && (flags.force || !too_recent(*facts))),
        r matches Ok(rep) ==> rep.ci_ignored == ci_not_green(*facts) && rep.recent_commits_forced
            == too_recent(*facts),
{
    let kind = classify_scheme(facts.scheme.as_str());
    let established = match kind {
        BranchKind::Public => true,
        BranchKind::Local => facts.has_public_counterpart,
        BranchKind::Unsupported => false,
    };
    if !established {
        return Err(ReleaseError::NoPublicBranch);
    }
    let ci_ignored = match &facts.ci_status {
        Some(st) => ci_gate(st, flags.ignore_ci)?,
        None => false,
    };
    if !facts.has_new_revisions {
        return Err(ReleaseError::NoUnreleasedChanges);
    }
    let recent_commits_forced = match check_release_age(facts.commit_age, facts.release_timeout) {
        Ok(()) => false,
        Err(e) => {
            if !flags.force {
                return Err(
                    ReleaseError::RecentCommits {
                        min_commit_age: e.min_commit_age,
                        commit_age: e.commit_age,
                    },
                );
            }
            true
        },
    };
    Ok(PreflightReport { ci_ignored, recent_commits_forced })
}

/// Whether the last released version is needed: no version was given and
/// no changelog gives one.
pub fn needs_last_version(
    explicit: &Option<Version>,
    pending: &Result<Version, FindPendingVersionError>,
) -> (r: bool)
    ensures
        r == (explicit is None && pending matches Err(FindPendingVersionError::NotFound)),
{
    explicit.is_none() && match pending {
        Err(FindPendingVersionError::NotFound) => true,
        _ => false,
    }
}

/// The version to release: the one given; else the changelog's pending
/// version; where no changelog gives one, the last version raised until its
/// tag is free.
pub fn choose_version(
    explicit: Option<Version>,
    pending: Result<Version, FindPendingVersionError>,
    last_version: Option<Version>,
    tag_template: &str,
    existing_tags: &[String],
) -> (r: Result<Version, ReleaseError>)
    ensures
        explicit matches Some(v) ==> r == Ok::<Version, ReleaseError>(v),
        explicit is None ==> ({
            let tags = strings_view(existing_tags@);
            &&& pending matches Ok(v) ==> r == Ok::<Version, ReleaseError>(v)
            &&& pending matches Err(FindPendingVersionError::OddPendingVersion(t)) ==> r == Err::<
                Version,
                ReleaseError,
            >(ReleaseError::OddPendingVersion { version: t })
            &&& pending matches Err(FindPendingVersionError::NoUnreleasedChanges) ==> (r matches Err(
                ReleaseError::NoUnreleasedChanges,
            ))
            &&& pending matches Err(FindPendingVersionError::Other(m)) ==> r == Err::<
                Version,
                ReleaseError,
            >(ReleaseError::Other(m))
            &&& pending matches Err(FindPendingVersionError::NotFound) ==> {
                &&& last_version is None ==> (r matches Err(ReleaseError::NoVersion))
                &&& last_version is Some ==> (r is Ok || r matches Err(ReleaseError::Other(_)))
                &&& r matches Ok(w) ==> exists|n: nat|
                    w == bumped(last_version->0, n) && !tag_taken(tags, tag_name(tag_template@, w))
                        && forall|m: nat|
                        m < n ==> tag_taken(
                            tags,
                            tag_name(tag_template@, #[trigger] bumped(last_version->0, m)),
                        )
            }
        }),
{
    if let Some(v) = explicit {
        return Ok(v);
    }
    match pending {
        Ok(v) => Ok(v),
        Err(FindPendingVersionError::OddPendingVersion(t)) => Err(
            ReleaseError::OddPendingVersion { version: t },
        ),
        Err(FindPendingVersionError::NoUnreleasedChanges) => Err(ReleaseError::NoUnreleasedChanges),
        Err(FindPendingVersionError::Other(m)) => Err(ReleaseError::Other(m)),
        Err(FindPendingVersionError::NotFound) => {
            match pick_new_version(
                Err(FindPendingVersionError::NotFound),
                last_version,
                tag_template,
                existing_tags,
            ) {
                Ok(w) => Ok(w),
                Err(PickError::NoVersion) => Err(ReleaseError::NoVersion),
                Err(e) => Err(ReleaseError::Other(e.to_string())),
            }
        },
    }
}

/// One change that the release commit makes.
#[derive(Debug)]
pub enum FileUpdate {
    /// Mark the pending changelog entry of this file as released.
    MarkReleased(String),
    /// Rewrite the version lines of this configured rule (by its index).
    VersionLine(usize),
    /// Write the version into this manual page.
    Manpage(String),
    /// Write the version into `Cargo.toml`.
    CrateManifest,
    /// Write the version into `pyproject.toml`.
    PythonManifest,
}

/// The changes of the release commit, in their fixed order: the changelog,
/// each version-line rule, each manual page, then each manifest present.
pub open spec fn file_updates(
    news_file: Option<String>,
    n_rules: nat,
    manpages: Seq<String>,
    has_cargo_toml: bool,
    has_pyproject_toml: bool,
) -> Seq<FileUpdate> {
    (match news_file {
        Some(n) => seq![FileUpdate::MarkReleased(n)],
        None => Seq::<FileUpdate>::empty(),
    }) + Seq::new(n_rules, |i: int| FileUpdate::VersionLine(i as usize)) + manpages.map_values(
        |m: String| FileUpdate::Manpage(m),
    ) + (if has_cargo_toml {
        seq![FileUpdate::CrateManifest]
    } else {
        Seq::<FileUpdate>::empty()
    }) + (if has_pyproject_toml {
        seq![FileUpdate::PythonManifest]
    } else {
        Seq::<FileUpdate>::empty()
    })
}

/// The changes that the release commit makes, in order.
pub fn plan_file_updates(
    cfg: &ProjectConfig,
    has_cargo_toml: bool,
    has_pyproject_toml: bool,
) -> (r: Vec<FileUpdate>)
    ensures
        r@ == file_updates(
            cfg.news_file,
            cfg.update_version@.len(),
            cfg.update_manpages@,
            has_cargo_toml,
            has_pyproject_toml,
        ),
{
    let mut steps: Vec<FileUpdate> = Vec::new();
    if let Some(n) = &cfg.news_file {
        steps.push(FileUpdate::MarkReleased(n.clone()));
    }
    let ghost head = steps@;
    let mut k: usize = 0;
    while k < cfg.update_version.len()
        invariant
            k <= cfg.update_version@.len(),
            steps@ == head + Seq::new(k as nat, |i: int| FileUpdate::VersionLine(i as usize)),
        decreases cfg.update_version@.len() - k,
    {
        steps.push(FileUpdate::VersionLine(k));
        assert(Seq::new((k + 1) as nat, |i: int| FileUpdate::VersionLine(i as usize)) =~= Seq::new(
            k as nat,
            |i: int| FileUpdate::VersionLine(i as usize),
        ).push(FileUpdate::VersionLine(k)));
        k += 1;
    }
    let ghost head2 = steps@;
    let pages = &cfg.update_manpages;
    let mut j: usize = 0;
    while j < pages.len()
        invariant
            j <= pages@.len(),
            steps@ == head2 + pages@.subrange(0, j as int).map_values(
                |m: String| FileUpdate::Manpage(m),
            ),
        decreases pages@.len() - j,
    {
        steps.push(FileUpdate::Manpage(pages[j].clone()));
        assert(pages@.subrange(0, j + 1).map_values(|m: String| FileUpdate::Manpage(m))
            =~= pages@.subrange(0, j as int).map_values(|m: String| FileUpdate::Manpage(m)).push(
            FileUpdate::Manpage(pages@[j as int]),
        ));
        j += 1;
    }
    assert(pages@.subrange(0, pages@.len() as int) =~= pages@);
    if has_cargo_toml {
        steps.push(FileUpdate::CrateManifest);
    }
    if has_pyproject_toml {
        steps.push(FileUpdate::PythonManifest);
    }
    assert(steps@ =~= file_updates(
        cfg.news_file,
        cfg.update_version@.len(),
        cfg.update_manpages@,
        has_cargo_toml,
        has_pyproject_toml,
    ));
    steps
}

/// The message of the release commit: `Release <version>.`.
pub fn release_commit_message(v: &Version) -> (r: String)
    ensures
        r@ == seq!['R', 'e', 'l', 'e', 'a', 's', 'e', ' '] + version_text(*v) + seq!['.'],
{
    let mut m = crate::text::string_of(&vec!['R', 'e', 'l', 'e', 'a', 's', 'e', ' ']);
    push_str(&mut m, v.to_string().as_str());
    crate::text::push_char(&mut m, '.');
    assert(m@ =~= seq!['R', 'e', 'l', 'e', 'a', 's', 'e', ' '] + version_text(*v) + seq!['.']);
    m
}

/// The message of the commit that starts the next cycle: `Start on
/// <version>.`.
pub fn next_cycle_commit_message(v: &Version) -> (r: String)
    ensures
        r@ == seq!['S', 't', 'a', 'r', 't', ' ', 'o', 'n', ' '] + version_text(*v) + seq!['.'],
{
    let mut m = crate::text::string_of(&vec!['S', 't', 'a', 'r', 't', ' ', 'o', 'n', ' ']);
    push_str(&mut m, v.to_string().as_str());
    crate::text::push_char(&mut m, '.');
    assert(m@ =~= seq!['S', 't', 'a', 'r', 't', ' ', 'o', 'n', ' '] + version_text(*v) + seq!['.']);
    m
}

// ---------------------------------------------------------------------------
// Steps after the release commit
// ---------------------------------------------------------------------------

/// What a release run after its commit needs to know.
#[derive(Debug)]
pub struct ReleasePlan {
    pub project: String,
    pub version: Version,
    pub tag_name: String,
    pub verify_command: Option<String>,
    pub ignore_verify_command: bool,
    pub dry_run: bool,
}

/// Where a release run stands after its commit.
#[derive(Debug)]
pub enum Phase {
    Verifying,
    CheckingTag,
    CreatingTag,
    BuildingArtifacts,
    PushingTag,
    Publishing { tag_pushed: bool },
    DeletingTag { reason: String },
    PushingBranch,
    ProposingMerge,
    CreatingForgeRelease,
    StartingNextCycle,
    Finished,
}

/// How the last action went.
#[derive(Debug)]
pub enum Outcome {
    Succeeded,
    Failed { reason: String, status: Option<i32> },
    /// The tag that was asked about exists.
    TagExists,
    /// The branch refused the push because it is protected.
    BranchProtected,
}

/// What to do next.
#[derive(Debug)]
pub enum Action {
    RunVerifyCommand(String),
    CheckTagExists(String),
    CreateTag(String),
    BuildArtifacts,
    PushTag(String),
    PublishArtifacts(String),
    DeleteTag(String),
    PushBranch,
    ProposeMerge(String),
    CreateForgeRelease(String),
    StartNextCycle,
    Finish(Result<(), ReleaseError>),
    Idle,
}

/// The first step after the release commit.
pub open spec fn first_step(plan: ReleasePlan) -> (Phase, Action) {
    match plan.verify_command {
        Some(c) => (Phase::Verifying, Action::RunVerifyCommand(c)),
        None => (Phase::CheckingTag, Action::CheckTagExists(plan.tag_name)),
    }
}

pub open spec fn copy_version(v: Version) -> Version {
    Version { major: v.major, minor: v.minor, micro: v.micro }
}

pub open spec fn fail(e: ReleaseError) -> (Phase, Action) {
    (Phase::Finished, Action::Finish(Err(e)))
}

/// The next phase and action after `outcome` in `phase`.
pub open spec fn transition(plan: ReleasePlan, phase: Phase, outcome: Outcome) -> (Phase, Action) {
    match phase {
        Phase::Verifying => match outcome {
            Outcome::Failed { reason, status } => if plan.ignore_verify_command {
                (Phase::CheckingTag, Action::CheckTagExists(plan.tag_name))
            } else {
                fail(
                    ReleaseError::VerifyCommandFailed {
                        command: match plan.verify_command {
                            Some(c) => c,
                            None => reason,
                        },
                        status,
                    },
                )
            },
            _ => (Phase::CheckingTag, Action::CheckTagExists(plan.tag_name)),
        },
        Phase::CheckingTag => match outcome {
            Outcome::TagExists => fail(
                ReleaseError::ReleaseTagExists {
                    project: plan.project,
                    tag: plan.tag_name,
                    version: copy_version(plan.version),
                },
            ),
            Outcome::Failed { reason, status } => fail(ReleaseError::Other(reason)),
            _ => (Phase::CreatingTag, Action::CreateTag(plan.tag_name)),
        },
        Phase::CreatingTag => match outcome {
            Outcome::Failed { reason, status } => fail(
                ReleaseError::CreateTagFailed {
                    tag_name: plan.tag_name,
                    status,
                    reason: Some(reason),
                },
            ),
            _ => if plan.dry_run {
                (Phase::Publishing { tag_pushed: false }, Action::PublishArtifacts(plan.tag_name))
            } else {
                (Phase::BuildingArtifacts, Action::BuildArtifacts)
            },
        },
        Phase::BuildingArtifacts => match outcome {
            Outcome::Failed { reason, status } => fail(ReleaseError::DistCreationFailed),
            _ => (Phase::PushingTag, Action::PushTag(plan.tag_name)),
        },
        Phase::PushingTag => match outcome {
            Outcome::Failed { reason, status } => fail(
                ReleaseError::CreateTagFailed {
                    tag_name: plan.tag_name,
                    status,
                    reason: Some(reason),
                },
            ),
            _ => (Phase::Publishing { tag_pushed: true }, Action::PublishArtifacts(plan.tag_name)),
        },
        Phase::Publishing { tag_pushed } => match outcome {
            Outcome::Failed { reason, status } => if tag_pushed {
                (Phase::DeletingTag { reason }, Action::DeleteTag(plan.tag_name))
            } else {
                fail(ReleaseError::PublishArtifactsFailed(reason))
            },
            _ => if plan.dry_run {
                (Phase::CreatingForgeRelease, Action::CreateForgeRelease(plan.tag_name))
            } else {
                (Phase::PushingBranch, Action::PushBranch)
            },
        },
        Phase::DeletingTag { reason } => match outcome {
            Outcome::Failed { reason: e, status } => fail(ReleaseError::Other(e)),
            _ => fail(ReleaseError::PublishArtifactsFailed(reason)),
        },
        Phase::PushingBranch => match outcome {
            Outcome::BranchProtected => (Phase::ProposingMerge, Action::ProposeMerge(plan.tag_name)),
            Outcome::Failed { reason, status } => fail(ReleaseError::Other(reason)),
            _ => (Phase::CreatingForgeRelease, Action::CreateForgeRelease(plan.tag_name)),
        },
        Phase::ProposingMerge => match outcome {
            Outcome::Failed { reason, status } => fail(ReleaseError::Other(reason)),
            _ => (Phase::CreatingForgeRelease, Action::CreateForgeRelease(plan.tag_name)),
        },
        Phase::CreatingForgeRelease => match outcome {
            Outcome::Failed { reason, status } => fail(ReleaseError::Other(reason)),
            _ => (Phase::StartingNextCycle, Action::StartNextCycle),
        },
        Phase::StartingNextCycle => match outcome {
            Outcome::Failed { reason, status } => fail(ReleaseError::Other(reason)),
            _ => (Phase::Finished, Action::Finish(Ok(()))),
        },
        Phase::Finished => (Phase::Finished, Action::Idle),
    }
}

fn copy_of(v: &Version) -> (r: Version)
    ensures
        r == copy_version(*v),
{
    Version { major: v.major, minor: v.minor, micro: v.micro }
}

/// The first phase and action after the release commit: the verify command
/// where there is one, else the check that the tag is free.
pub fn release_start(plan: &ReleasePlan) -> (r: (Phase, Action))
    ensures
        r == first_step(*plan),
{
    match &plan.verify_command {
        Some(c) => (Phase::Verifying, Action::RunVerifyCommand(c.clone())),
        None => (Phase::CheckingTag, Action::CheckTagExists(plan.tag_name.clone())),
    }
}

/// The next phase and action after `outcome` in `phase`.
pub fn release_step(plan: &ReleasePlan, phase: &Phase, outcome: &Outcome) -> (r: (Phase, Action))
    ensures
        r == transition(*plan, *phase, *outcome),
{
    let tag = plan.tag_name.clone();
    match phase {
        Phase::Verifying => match outcome {
            Outcome::Failed { reason, status } => if plan.ignore_verify_command {
                (Phase::CheckingTag, Action::CheckTagExists(tag))
            } else {
                let command = match &plan.verify_command {
                    Some(c) => c.clone(),
                    None => reason.clone(),
                };
                (
                    Phase::Finished,
                    Action::Finish(
                        Err(ReleaseError::VerifyCommandFailed { command, status: *status }),
                    ),
                )
            },
            _ => (Phase::CheckingTag, Action::CheckTagExists(tag)),
        },
        Phase::CheckingTag => match outcome {
            Outcome::TagExists => (
                Phase::Finished,
                Action::Finish(
                    Err(
                        ReleaseError::ReleaseTagExists {
                            project: plan.project.clone(),
                            tag,
                            version: copy_of(&plan.version),
                        },
                    ),
                ),
            ),
            Outcome::Failed { reason, status } => (
                Phase::Finished,
                Action::Finish(Err(ReleaseError::Other(reason.clone()))),
            ),
            _ => (Phase::CreatingTag, Action::CreateTag(tag)),
        },
        Phase::CreatingTag => match outcome {
            Outcome::Failed { reason, status } => (
                Phase::Finished,
                Action::Finish(
                    Err(
                        ReleaseError::CreateTagFailed {
                            tag_name: tag,
                            status: *status,
                            reason: Some(reason.clone()),
                        },
                    ),
                ),
            ),
            _ => if plan.dry_run {
                (Phase::Publishing { tag_pushed: false }, Action::PublishArtifacts(tag))
            } else {
                (Phase::BuildingArtifacts, Action::BuildArtifacts)
            },
        },
        Phase::BuildingArtifacts => match outcome {
            Outcome::Failed { reason, status } => (
                Phase::Finished,
                Action::Finish(Err(ReleaseError::DistCreationFailed)),
            ),
            _ => (Phase::PushingTag, Action::PushTag(tag)),
        },
        Phase::PushingTag => match outcome {
            Outcome::Failed { reason, status } => (
                Phase::Finished,
                Action::Finish(
                    Err(
                        ReleaseError::CreateTagFailed {
                            tag_name: tag,
                            status: *status,
                            reason: Some(reason.clone()),
                        },
                    ),
                ),
            ),
            _ => (Phase::Publishing { tag_pushed: true }, Action::PublishArtifacts(tag)),
        },
        Phase::Publishing { tag_pushed } => match outcome {
            Outcome::Failed { reason, status } => if *tag_pushed {
                (Phase::DeletingTag { reason: reason.clone() }, Action::DeleteTag(tag))
            } else {
                (
                    Phase::Finished,
                    Action::Finish(Err(ReleaseError::PublishArtifactsFailed(reason.clone()))),
                )
            },
            _ => if plan.dry_run {
                (Phase::CreatingForgeRelease, Action::CreateForgeRelease(tag))
            } else {
                (Phase::PushingBranch, Action::PushBranch)
            },
        },
        Phase::DeletingTag { reason } => match outcome {
            Outcome::Failed { reason: e, status } => (
                Phase::Finished,
                Action::Finish(Err(ReleaseError::Other(e.clone()))),
            ),
            _ => (
                Phase::Finished,
                Action::Finish(Err(ReleaseError::PublishArtifactsFailed(reason.clone()))),
            ),
        },
        Phase::PushingBranch => match outcome {
            Outcome::BranchProtected => (Phase::ProposingMerge, Action::ProposeMerge(tag)),
            Outcome::Failed { reason, status } => (
                Phase::Finished,
                Action::Finish(Err(ReleaseError::Other(reason.clone()))),
            ),
            _ => (Phase::CreatingForgeRelease, Action::CreateForgeRelease(tag)),
        },
        Phase::ProposingMerge => match outcome {
            Outcome::Failed { reason, status } => (
                Phase::Finished,
                Action::Finish(Err(ReleaseError::Other(reason.clone()))),
            ),
            _ => (Phase::CreatingForgeRelease, Action::CreateForgeRelease(tag)),
        },
        Phase::CreatingForgeRelease => match outcome {
            Outcome::Failed { reason, status } => (
                Phase::Finished,
                Action::Finish(Err(ReleaseError::Other(reason.clone()))),
            ),
            _ => (Phase::StartingNextCycle, Action::StartNextCycle),
        },
        Phase::StartingNextCycle => match outcome {
            Outcome::Failed { reason, status } => (
                Phase::Finished,
                Action::Finish(Err(ReleaseError::Other(reason.clone()))),
            ),
            _ => (Phase::Finished, Action::Finish(Ok(()))),
        },
        Phase::Finished => (Phase::Finished, Action::Idle),
    }
}

// ---------------------------------------------------------------------------
// Laws of a run
// ---------------------------------------------------------------------------

/// The actions that a run takes from `phase` for the given outcomes.
pub open spec fn run_actions(plan: ReleasePlan, phase: Phase, outcomes: Seq<Outcome>) -> Seq<Action>
    decreases outcomes.len(),
{
    if outcomes.len() == 0 {
        Seq::<Action>::empty()
    } else {
        let next = transition(plan, phase, outcomes[0]);
        seq![next.1] + run_actions(plan, next.0, outcomes.drop_first())
    }
}

/// An action that changes something outside: a tag, an artifact, a push, a
/// publication, a forge release, a commit.
pub open spec fn has_effect(a: Action) -> bool {
    match a {
        Action::Finish(_) | Action::Idle | Action::CheckTagExists(_) => false,
        _ => true,
    }
}

proof fn lemma_finished_is_idle(plan: ReleasePlan, outcomes: Seq<Outcome>)
    ensures
        forall|i: int|
            0 <= i < outcomes.len() ==> #[trigger] run_actions(plan, Phase::Finished, outcomes)[i]
                == Action::Idle,
        run_actions(plan, Phase::Finished, outcomes).len() == outcomes.len(),
    decreases outcomes.len(),
{
    if outcomes.len() > 0 {
        lemma_finished_is_idle(plan, outcomes.drop_first());
        let rest = run_actions(plan, Phase::Finished, outcomes.drop_first());
        assert forall|i: int| 0 <= i < outcomes.len() implies #[trigger] run_actions(
            plan,
            Phase::Finished,
            outcomes,
        )[i] == Action::Idle by {
            if i > 0 {
                assert(run_actions(plan, Phase::Finished, outcomes)[i] == rest[i - 1]);
            }
        }
    }
}

/// When the tag for the new version exists already, the run ends with
/// `ReleaseTagExists` and takes no action with an effect afterwards: no tag
/// is created, no artifact built, nothing pushed or published.
pub proof fn lemma_tag_exists_stops(plan: ReleasePlan, later: Seq<Outcome>)
    ensures
        ({
            let actions = run_actions(plan, Phase::CheckingTag, seq![Outcome::TagExists] + later);
            &&& actions[0] == Action::Finish(
                Err(
                    ReleaseError::ReleaseTagExists {
                        project: plan.project,
                        tag: plan.tag_name,
                        version: copy_version(plan.version),
                    },
                ),
            )
            &&& forall|i: int| 0 <= i < actions.len() ==> !has_effect(#[trigger] actions[i])
        }),
{
    let outcomes = seq![Outcome::TagExists] + later;
    assert(outcomes[0] == Outcome::TagExists);
    assert(outcomes.drop_first() =~= later);
    lemma_finished_is_idle(plan, later);
    let actions = run_actions(plan, Phase::CheckingTag, outcomes);
    let rest = run_actions(plan, Phase::Finished, later);
    assert(actions == seq![transition(plan, Phase::CheckingTag, Outcome::TagExists).1] + rest);
    assert forall|i: int| 0 <= i < actions.len() implies !has_effect(#[trigger] actions[i]) by {
        if i > 0 {
            assert(actions[i] == rest[i - 1]);
        }
    }
}

/// A failed publication after the tag was pushed deletes the tag first; once
/// that is done the run ends with `PublishArtifactsFailed`.
pub proof fn lemma_publish_failure_deletes_tag(
    plan: ReleasePlan,
    reason: String,
    status: Option<i32>,
)
    ensures
        transition(
            plan,
            Phase::Publishing { tag_pushed: true },
            Outcome::Failed { reason, status },
        ) == (Phase::DeletingTag { reason }, Action::DeleteTag(plan.tag_name)),
        transition(plan, Phase::DeletingTag { reason }, Outcome::Succeeded) == fail(
            ReleaseError::PublishArtifactsFailed(reason),
        ),
{
}

/// `PublishArtifactsFailed` is returned only after the tag was deleted, or
/// from a publication whose tag was never pushed.
pub proof fn lemma_publish_failed_only_after_delete(
    plan: ReleasePlan,
    phase: Phase,
    outcome: Outcome,
)
    requires
        transition(plan, phase, outcome).1 matches Action::Finish(
            Err(ReleaseError::PublishArtifactsFailed(_)),
        ),
    ensures
        phase is DeletingTag || phase == (Phase::Publishing { tag_pushed: false }),
{
}

} // verus!
