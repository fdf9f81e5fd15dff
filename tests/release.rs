use disperse::github::{ci_timed_out, summarize_status, CheckRun, GitHubCIStatus};
use disperse::release::{
    check_release_age, ci_gate, classify_scheme, determine_verify_command, release_start,
    release_step, Action, BranchKind, Outcome, Phase, ReleaseError, ReleasePlan,
};
use disperse::Version;

fn plan(dry_run: bool, verify: Option<&str>) -> ReleasePlan {
    ReleasePlan {
        project: "foo".to_string(),
        version: Version { major: 1, minor: Some(2), micro: Some(3) },
        tag_name: "v1.2.3".to_string(),
        verify_command: verify.map(|s| s.to_string()),
        ignore_verify_command: false,
        dry_run,
    }
}

fn failed(reason: &str) -> Outcome {
    Outcome::Failed { reason: reason.to_string(), status: Some(1) }
}

#[test]
fn existing_tag_stops_before_any_effect() {
    let p = plan(false, None);
    let (phase, action) = release_start(&p);
    assert!(matches!(phase, Phase::CheckingTag));
    assert!(matches!(action, Action::CheckTagExists(ref t) if t == "v1.2.3"));
    let (phase, action) = release_step(&p, &phase, &Outcome::TagExists);
    match action {
        Action::Finish(Err(ReleaseError::ReleaseTagExists { project, tag, version })) => {
            assert_eq!(project, "foo");
            assert_eq!(tag, "v1.2.3");
            assert_eq!(version, Version { major: 1, minor: Some(2), micro: Some(3) });
        }
        other => panic!("unexpected {:?}", other),
    }
    let (phase, action) = release_step(&p, &phase, &Outcome::Succeeded);
    assert!(matches!(phase, Phase::Finished));
    assert!(matches!(action, Action::Idle));
}

#[test]
fn publish_failure_deletes_the_pushed_tag() {
    let p = plan(false, Some("make check"));
    let mut phase = release_start(&p).0;
    let mut actions = vec![];
    for o in [Outcome::Succeeded, Outcome::Succeeded, Outcome::Succeeded, Outcome::Succeeded, Outcome::Succeeded, failed("upload"), Outcome::Succeeded] {
        let (next, action) = release_step(&p, &phase, &o);
        actions.push(action);
        phase = next;
    }
    assert!(matches!(actions[0], Action::CheckTagExists(_)));
    assert!(matches!(actions[1], Action::CreateTag(_)));
    assert!(matches!(actions[2], Action::BuildArtifacts));
    assert!(matches!(actions[3], Action::PushTag(_)));
    assert!(matches!(actions[4], Action::PublishArtifacts(_)));
    assert!(matches!(actions[5], Action::DeleteTag(ref t) if t == "v1.2.3"));
    assert!(matches!(actions[6], Action::Finish(Err(ReleaseError::PublishArtifactsFailed(ref m))) if m == "upload"));
}

#[test]
fn dry_run_publish_failure_has_no_tag_to_delete() {
    let p = plan(true, None);
    let (phase, _) = release_step(&p, &Phase::CreatingTag, &Outcome::Succeeded);
    assert!(matches!(phase, Phase::Publishing { tag_pushed: false }));
    let (_, action) = release_step(&p, &phase, &failed("upload"));
    assert!(matches!(action, Action::Finish(Err(ReleaseError::PublishArtifactsFailed(_)))));
}

#[test]
fn full_run_and_protected_branch() {
    let p = plan(false, None);
    let (phase, action) = release_step(&p, &Phase::PushingBranch, &Outcome::BranchProtected);
    assert!(matches!(phase, Phase::ProposingMerge));
    assert!(matches!(action, Action::ProposeMerge(_)));
    let (phase, action) = release_step(&p, &phase, &Outcome::Succeeded);
    assert!(matches!(action, Action::CreateForgeRelease(_)));
    let (phase, action) = release_step(&p, &phase, &Outcome::Succeeded);
    assert!(matches!(action, Action::StartNextCycle));
    let (_, action) = release_step(&p, &phase, &Outcome::Succeeded);
    assert!(matches!(action, Action::Finish(Ok(()))));
}

#[test]
fn verify_failures() {
    let p = plan(false, Some("make check"));
    let (_, action) = release_step(&p, &Phase::Verifying, &failed("exit"));
    assert!(matches!(action, Action::Finish(Err(ReleaseError::VerifyCommandFailed { ref command, status: Some(1) })) if command == "make check"));
    let mut q = plan(false, Some("make check"));
    q.ignore_verify_command = true;
    let (_, action) = release_step(&q, &Phase::Verifying, &failed("exit"));
    assert!(matches!(action, Action::CheckTagExists(_)));
}

#[test]
fn release_age_gate() {
    assert!(check_release_age(3, None).is_ok());
    assert!(check_release_age(3, Some(3)).is_ok());
    let e = check_release_age(2, Some(3)).unwrap_err();
    assert_eq!((e.min_commit_age, e.commit_age), (3, 2));
    assert!(check_release_age(-1, Some(0)).is_err());
}

#[test]
fn schemes_and_verify_commands() {
    assert_eq!(classify_scheme("file"), BranchKind::Local);
    assert_eq!(classify_scheme("git+ssh"), BranchKind::Public);
    assert_eq!(classify_scheme("https"), BranchKind::Public);
    assert_eq!(classify_scheme("http"), BranchKind::Public);
    assert_eq!(classify_scheme("git"), BranchKind::Public);
    assert_eq!(classify_scheme("svn"), BranchKind::Unsupported);
    assert_eq!(determine_verify_command(Some("make".to_string()), true, true), Some("make".to_string()));
    assert_eq!(determine_verify_command(None, true, true), Some("tox".to_string()));
    assert_eq!(determine_verify_command(None, false, true), Some("cargo test --all".to_string()));
    assert_eq!(determine_verify_command(None, false, false), None);
}

fn run(conclusion: Option<&str>, sha: &str) -> CheckRun {
    CheckRun { conclusion: conclusion.map(|s| s.to_string()), head_sha: sha.to_string(), html_url: None }
}

#[test]
fn ci_status_and_gate() {
    assert!(summarize_status(&[run(Some("success"), "a"), run(Some("skipped"), "b")]).is_ok());
    match summarize_status(&[run(Some("success"), "a"), run(Some("failure"), "b"), run(None, "c")]) {
        GitHubCIStatus::Failed { sha, .. } => assert_eq!(sha, "b"),
        other => panic!("unexpected {:?}", other),
    }
    assert!(matches!(summarize_status(&[run(None, "c")]), GitHubCIStatus::Pending { .. }));
    assert!(matches!(summarize_status(&[run(Some("pending"), "c")]), GitHubCIStatus::Pending { .. }));
    let failed = GitHubCIStatus::Failed { sha: "b".to_string(), html_url: None };
    assert!(matches!(ci_gate(&failed, false), Err(ReleaseError::CIFailed(ref m)) if m == "for revision b: unknown"));
    assert!(matches!(ci_gate(&failed, true), Ok(true)));
    assert!(matches!(ci_gate(&GitHubCIStatus::Success, false), Ok(false)));
    let pending = GitHubCIStatus::Pending { sha: "c".to_string(), html_url: Some("u".to_string()) };
    assert!(matches!(ci_gate(&pending, false), Err(ReleaseError::CIPending(_))));
    assert!(!ci_timed_out(59, Some(1)));
    assert!(ci_timed_out(60, Some(1)));
    assert!(!ci_timed_out(86399, None));
    assert!(ci_timed_out(86400, None));
}

use disperse::release::{check_new_revisions, classify_outcome, BatchOutcome, BatchTally, TreeDelta};

fn delta(modified: Vec<(Option<&str>, Option<&str>)>) -> TreeDelta {
    TreeDelta {
        added: 0,
        removed: 0,
        renamed: 0,
        kind_changed: 0,
        modified: modified.into_iter().map(|(a, b)| (a.map(|s| s.to_string()), b.map(|s| s.to_string()))).collect(),
    }
}

#[test]
fn new_revisions_ignore_a_changelog_only_change() {
    assert!(!check_new_revisions(true, &delta(vec![(Some("a"), Some("a"))]), None));
    assert!(!check_new_revisions(false, &delta(vec![(Some("NEWS"), Some("NEWS"))]), Some("NEWS")));
    assert!(check_new_revisions(false, &delta(vec![(Some("NEWS"), Some("NEWS"))]), None));
    assert!(check_new_revisions(false, &delta(vec![(Some("src"), Some("src")), (Some("NEWS"), Some("NEWS"))]), Some("NEWS")));
    assert!(!check_new_revisions(false, &delta(vec![]), Some("NEWS")));
    let mut d = delta(vec![]);
    d.added = 1;
    assert!(check_new_revisions(false, &d, Some("NEWS")));
}

#[test]
fn batch_tally_and_exit_code() {
    let mut t = BatchTally::new();
    t.record(classify_outcome(&Ok(())));
    t.record(classify_outcome(&Err(ReleaseError::NoUnreleasedChanges)));
    assert_eq!((t.released, t.skipped, t.failed), (1, 1, 0));
    assert_eq!(t.exit_code(true, false), 0);
    assert_eq!(t.exit_code(false, false), 1);
    t.record(classify_outcome(&Err(ReleaseError::CIFailed("x".to_string()))));
    assert_eq!(t.exit_code(true, false), 1);
    assert_eq!(t.exit_code(true, true), 0);
    assert_eq!(classify_outcome(&Err(ReleaseError::RecentCommits { min_commit_age: 2, commit_age: 1 })), BatchOutcome::Skipped);
}

use disperse::release::{plan_publish, PublishStep};

#[test]
fn publish_plan_follows_flags() {
    let locs = vec!["host:/srv".to_string(), "other:/x".to_string()];
    assert!(plan_publish(true, true, Some(true), true, &locs).is_empty());
    let steps = plan_publish(false, true, Some(true), true, &locs);
    assert_eq!(steps.len(), 4);
    assert!(matches!(steps[0], PublishStep::TwineUpload));
    assert!(matches!(steps[1], PublishStep::CargoPublish));
    assert!(matches!(steps[2], PublishStep::CopyTo(ref l) if l == "host:/srv"));
    assert!(matches!(steps[3], PublishStep::CopyTo(ref l) if l == "other:/x"));
    let steps = plan_publish(false, true, None, false, &vec![]);
    assert!(steps.is_empty());
}

use disperse::discovery::FindPendingVersionError;
use disperse::project_config::ProjectConfig;
use disperse::release::{
    choose_version, needs_last_version, next_cycle_commit_message, plan_file_updates, preflight,
    release_commit_message, FileUpdate, PreflightFacts, PreflightFlags,
};

fn facts(scheme: &str, counterpart: bool, ci: Option<GitHubCIStatus>, new: bool, age: i64, timeout: Option<u64>) -> PreflightFacts {
    PreflightFacts {
        scheme: scheme.to_string(),
        has_public_counterpart: counterpart,
        ci_status: ci,
        has_new_revisions: new,
        commit_age: age,
        release_timeout: timeout,
    }
}

#[test]
fn preflight_checks_in_order() {
    let strict = PreflightFlags { ignore_ci: false, force: false };
    assert!(matches!(preflight(&facts("file", false, None, true, 9, None), strict), Err(ReleaseError::NoPublicBranch)));
    assert!(matches!(preflight(&facts("svn", true, None, true, 9, None), strict), Err(ReleaseError::NoPublicBranch)));
    let failing = || Some(GitHubCIStatus::Failed { sha: "a".to_string(), html_url: None });
    assert!(matches!(preflight(&facts("https", false, failing(), false, 9, None), strict), Err(ReleaseError::CIFailed(_))));
    let pending = Some(GitHubCIStatus::Pending { sha: "a".to_string(), html_url: None });
    assert!(matches!(preflight(&facts("https", false, pending, true, 9, None), strict), Err(ReleaseError::CIPending(_))));
    assert!(matches!(preflight(&facts("file", true, None, false, 9, None), strict), Err(ReleaseError::NoUnreleasedChanges)));
    assert!(matches!(
        preflight(&facts("file", true, None, true, 1, Some(3)), strict),
        Err(ReleaseError::RecentCommits { min_commit_age: 3, commit_age: 1 })
    ));
    let lax = PreflightFlags { ignore_ci: true, force: true };
    let rep = preflight(&facts("https", false, failing(), true, 1, Some(3)), lax).unwrap();
    assert!(rep.ci_ignored && rep.recent_commits_forced);
    let rep = preflight(&facts("git", false, Some(GitHubCIStatus::Success), true, 5, Some(3)), strict).unwrap();
    assert!(!rep.ci_ignored && !rep.recent_commits_forced);
}

#[test]
fn version_choice() {
    let v = |s: &str| -> Version { s.parse().unwrap() };
    let tags = vec!["v1.0".to_string()];
    assert_eq!(choose_version(Some(v("5.0")), Ok(v("2.0")), None, "v$VERSION", &tags).unwrap(), v("5.0"));
    assert_eq!(choose_version(None, Ok(v("2.0")), None, "v$VERSION", &tags).unwrap(), v("2.0"));
    assert_eq!(choose_version(None, Err(FindPendingVersionError::NotFound), Some(v("1.0")), "v$VERSION", &tags).unwrap(), v("1.1"));
    assert!(matches!(
        choose_version(None, Err(FindPendingVersionError::NotFound), None, "v$VERSION", &tags),
        Err(ReleaseError::NoVersion)
    ));
    assert!(matches!(
        choose_version(None, Err(FindPendingVersionError::OddPendingVersion("1.x".to_string())), None, "v$VERSION", &tags),
        Err(ReleaseError::OddPendingVersion { ref version }) if version == "1.x"
    ));
    assert!(matches!(
        choose_version(None, Err(FindPendingVersionError::NoUnreleasedChanges), None, "v$VERSION", &tags),
        Err(ReleaseError::NoUnreleasedChanges)
    ));
    assert!(needs_last_version(&None, &Err(FindPendingVersionError::NotFound)));
    assert!(!needs_last_version(&Some(v("1.0")), &Err(FindPendingVersionError::NotFound)));
    assert!(!needs_last_version(&None, &Ok(v("1.0"))));
}

#[test]
fn file_updates_in_fixed_order() {
    let mut cfg = ProjectConfig::default();
    cfg.news_file = Some("NEWS".to_string());
    cfg.update_version = vec![disperse::project_config::UpdateVersion {
        path: "a.py".to_string(),
        match_pattern: None,
        new_line: "v = \"$VERSION\"".to_string(),
    }];
    cfg.update_manpages = vec!["foo.1".to_string()];
    let plan = plan_file_updates(&cfg, true, true);
    assert_eq!(plan.len(), 5);
    assert!(matches!(plan[0], FileUpdate::MarkReleased(ref n) if n == "NEWS"));
    assert!(matches!(plan[1], FileUpdate::VersionLine(0)));
    assert!(matches!(plan[2], FileUpdate::Manpage(ref m) if m == "foo.1"));
    assert!(matches!(plan[3], FileUpdate::CrateManifest));
    assert!(matches!(plan[4], FileUpdate::PythonManifest));
    assert!(plan_file_updates(&ProjectConfig::default(), false, false).is_empty());
    let v: Version = "1.2.3".parse().unwrap();
    assert_eq!(release_commit_message(&v), "Release 1.2.3.");
    assert_eq!(next_cycle_commit_message(&v), "Start on 1.2.3.");
}
