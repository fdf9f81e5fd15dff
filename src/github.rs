//! The status of a forge's CI checks.
use crate::text::{push_str, range_eq_str};
use vstd::prelude::*;

verus! {

/// The state of the CI checks of a revision.
#[derive(Debug)]
pub enum GitHubCIStatus {
    Success,
    Failed { sha: String, html_url: Option<String> },
    Pending { sha: String, html_url: Option<String> },
}

impl GitHubCIStatus {
    pub fn is_ok(&self) -> (r: bool)
        ensures
            r == (*self is Success),
    {
        matches!(self, GitHubCIStatus::Success)
    }

    /// A message that describes the status.
    pub fn to_string(&self) -> String {
        match self {
            GitHubCIStatus::Success => "GitHub CI Status: OK".to_string(),
            GitHubCIStatus::Failed { sha, html_url } => {
                let mut m = "GitHub CI Status: Failed: SHA ".to_string();
                push_str(&mut m, sha.as_str());
                push_str(&mut m, ", URL ");
                match html_url {
                    Some(u) => push_str(&mut m, u.as_str()),
                    None => push_str(&mut m, "None"),
                }
                m
            },
            GitHubCIStatus::Pending { sha, html_url } => {
                let mut m = "GitHub CI Status: Pending: SHA ".to_string();
                push_str(&mut m, sha.as_str());
                push_str(&mut m, ", URL ");
                match html_url {
                    Some(u) => push_str(&mut m, u.as_str()),
                    None => push_str(&mut m, "None"),
                }
                m
            },
        }
    }
}

/// One check run of a revision.
#[derive(Debug)]
pub struct CheckRun {
    pub conclusion: Option<String>,
    pub head_sha: String,
    pub html_url: Option<String>,
}

pub open spec fn success_word() -> Seq<char> {
    seq!['s', 'u', 'c', 'c', 'e', 's', 's']
}

pub open spec fn skipped_word() -> Seq<char> {
    seq!['s', 'k', 'i', 'p', 'p', 'e', 'd']
}

pub open spec fn pending_word() -> Seq<char> {
    seq!['p', 'e', 'n', 'd', 'i', 'n', 'g']
}

/// A run that does not hold the release back: concluded with success or
/// skipped.
pub open spec fn run_passed(c: CheckRun) -> bool {
    match c.conclusion {
        Some(s) => s@ == success_word() || s@ == skipped_word(),
        None => false,
    }
}

/// A run that has not concluded: no conclusion, or `pending`.
pub open spec fn run_pending(c: CheckRun) -> bool {
    match c.conclusion {
        Some(s) => s@ == pending_word(),
        None => true,
    }
}

/// The status of the first run that did not pass, `Ok` when all passed.
pub open spec fn status_of(runs: Seq<CheckRun>) -> GitHubCIStatus
    decreases runs.len(),
{
    if runs.len() == 0 {
        GitHubCIStatus::Success
    } else if run_passed(runs[0]) {
        status_of(runs.drop_first())
    } else if run_pending(runs[0]) {
        GitHubCIStatus::Pending { sha: runs[0].head_sha, html_url: runs[0].html_url }
    } else {
        GitHubCIStatus::Failed { sha: runs[0].head_sha, html_url: runs[0].html_url }
    }
}

fn clone_opt(o: &Option<String>) -> (r: Option<String>)
    ensures
        r == *o,
{
    match o {
        Some(s) => Some(s.clone()),
        None => None,
    }
}

/// The CI status that a revision's check runs give.
pub fn summarize_status(check_runs: &[CheckRun]) -> (r: GitHubCIStatus)
    ensures
        r == status_of(check_runs@),
{
    let mut k: usize = 0;
    assert(check_runs@.subrange(0, check_runs@.len() as int) =~= check_runs@);
    while k < check_runs.len()
        invariant
            k <= check_runs@.len(),
            status_of(check_runs@) == status_of(
                check_runs@.subrange(k as int, check_runs@.len() as int),
            ),
        decreases check_runs@.len() - k,
    {
        let ghost rest = check_runs@.subrange(k as int, check_runs@.len() as int);
        assert(rest.drop_first() =~= check_runs@.subrange(k + 1, check_runs@.len() as int));
        let c = &check_runs[k];
        let passed = match &c.conclusion {
            Some(s) => range_eq_str(s.as_str(), &vec!['s', 'u', 'c', 'c', 'e', 's', 's'])
                || range_eq_str(s.as_str(), &vec!['s', 'k', 'i', 'p', 'p', 'e', 'd']),
            None => false,
        };
        if !passed {
            let pending = match &c.conclusion {
                Some(s) => range_eq_str(s.as_str(), &vec!['p', 'e', 'n', 'd', 'i', 'n', 'g']),
                None => true,
            };
            if pending {
                return GitHubCIStatus::Pending {
                    sha: c.head_sha.clone(),
                    html_url: clone_opt(&c.html_url),
                };
            } else {
                return GitHubCIStatus::Failed {
                    sha: c.head_sha.clone(),
                    html_url: clone_opt(&c.html_url),
                };
            }
        }
        k += 1;
    }
    GitHubCIStatus::Success
}

/// Whether waiting for CI has used up its time: `timeout_minutes`, by
/// default a day.
pub fn ci_timed_out(elapsed_secs: u64, timeout_minutes: Option<u64>) -> (r: bool)
    ensures
        r == ((elapsed_secs as int) >= 60 * (match timeout_minutes {
            Some(t) => t as int,
            None => 1440int,
        })),
{
    let t: u64 = match timeout_minutes {
        Some(t) => t,
        None => 1440,
    };
    if t > u64::MAX / 60 {
        false
    } else {
        elapsed_secs >= t * 60
    }
}

} // verus!
