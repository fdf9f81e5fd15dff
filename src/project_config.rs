//! A project's release configuration, as plain values.
use vstd::prelude::*;

verus! {

/// How a project is released.
#[derive(Debug)]
pub struct ProjectConfig {
    pub name: Option<String>,
    /// The template of tag names, holding `$VERSION`.
    pub tag_name: Option<String>,
    pub update_version: Vec<UpdateVersion>,
    /// Glob patterns of manual pages whose version is updated.
    pub update_manpages: Vec<String>,
    pub launchpad: Option<Launchpad>,
    pub github: Option<GitHub>,
    /// The path of the changelog.
    pub news_file: Option<String>,
    pub pre_dist_command: Option<String>,
    pub verify_command: Option<String>,
    pub twine_upload: Option<bool>,
    pub tarball_location: Vec<String>,
    /// The minimum age of the last commit, in days.
    pub release_timeout: Option<u64>,
    /// How long to wait for CI, in minutes.
    pub ci_timeout: Option<u64>,
}

impl Default for ProjectConfig {
    fn default() -> (r: ProjectConfig)
        ensures
            r.name is None && r.tag_name is None && r.update_version@.len() == 0
                && r.update_manpages@.len() == 0 && r.launchpad is None && r.github is None
                && r.news_file is None && r.pre_dist_command is None && r.verify_command is None
                && r.twine_upload is None && r.tarball_location@.len() == 0
                && r.release_timeout is None && r.ci_timeout is None,
    {
        ProjectConfig {
            name: None,
            tag_name: None,
            update_version: Vec::new(),
            update_manpages: Vec::new(),
            launchpad: None,
            github: None,
            news_file: None,
            pre_dist_command: None,
            verify_command: None,
            twine_upload: None,
            tarball_location: Vec::new(),
            release_timeout: None,
            ci_timeout: None,
        }
    }
}

/// A GitHub repository and the branch whose CI gates a release.
#[derive(Debug)]
pub struct GitHub {
    pub url: String,
    pub branch: Option<String>,
}

/// A Launchpad project and series.
#[derive(Debug)]
pub struct Launchpad {
    pub project: String,
    pub series: Option<String>,
}

/// A file whose version line is rewritten on release: the line's template,
/// and optionally a pattern that finds the line instead of the template.
#[derive(Debug)]
pub struct UpdateVersion {
    pub path: String,
    pub match_pattern: Option<String>,
    pub new_line: String,
}

} // verus!
