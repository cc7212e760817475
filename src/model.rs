//! The values that the engine takes from the upstream client and hands back.
use vstd::prelude::*;

verus! {

/// Why one upstream call produced no usable value.
#[derive(Clone, Copy, Debug, PartialEq, Eq, Structural)]
pub enum FetchError {
    /// The request did not complete (connection refused, timeout, TLS).
    Transport,
    /// The platform answered with a status outside 2xx.
    Status(u16),
    /// The body or a header could not be read as the expected shape.
    Malformed,
}

/// A project of a group, as the platform lists it.
#[derive(Clone, Debug)]
pub struct Project {
    pub id: u64,
    pub name: String,
    pub archived: bool,
}

/// A project together with the outcome of counting its commits in the window.
#[derive(Debug)]
pub struct ProjectActivity {
    pub name: String,
    pub archived: bool,
    pub commits: Result<u32, FetchError>,
}

/// Statistics of a group. Durations are in seconds.
///
/// `cycle_time_avg` and `deployment_frequency` (deployments per week) need
/// deployment and merge events that the upstream client does not fetch: they
/// are `None` until such signals are supplied.
#[derive(Clone, Debug)]
pub struct GroupMetrics {
    pub cycle_time_avg: Option<u64>,
    pub deployment_frequency: Option<u32>,
    pub total_commits: u64,
    pub inactive_projects: Vec<String>,
}

/// A member of a team with the outcomes of counting, in the window, their
/// commits, their reviews and their merged merge requests.
#[derive(Debug)]
pub struct MemberActivity {
    pub user: String,
    pub commits: Result<u32, FetchError>,
    pub reviews: Result<u32, FetchError>,
    pub merged: Result<u32, FetchError>,
}

/// The work of one team member in the window.
#[derive(Clone, Debug)]
pub struct UserWorkload {
    pub user: String,
    pub commits: u32,
    pub reviews: u32,
}

/// Statistics of a team. `avg_review_time` is in seconds.
#[derive(Clone, Debug)]
pub struct TeamMetrics {
    pub mr_throughput: u64,
    pub avg_review_time: u64,
    pub workload_distribution: Vec<UserWorkload>,
}

/// What the engine reads of one merge request of a user.
#[derive(Clone, Copy, Debug, PartialEq, Eq, Structural)]
pub struct MergeRequestStats {
    /// Lines added plus lines removed.
    pub lines_changed: u32,
    /// Seconds from creation to the first review comment, if it got one.
    pub first_review_wait: Option<u32>,
    /// Whether it received change-request feedback and was updated after it.
    pub reworked: bool,
}

/// Statistics of one user. `avg_mr_size` is in changed lines,
/// `time_to_first_review_avg` in seconds, `rework_rate` in percent.
/// A window open on either side counts as a single week for
/// `commits_per_week`, since its length cannot be measured.
#[derive(Clone, Debug)]
pub struct UserMetrics {
    pub commits_per_week: u32,
    pub mrs_created: u32,
    pub avg_mr_size: u64,
    pub time_to_first_review_avg: u64,
    pub rework_rate: u32,
}

/// A user of the platform.
#[derive(Clone, Debug)]
pub struct User {
    pub username: String,
}

/// The users of the platform.
#[derive(Clone, Debug)]
pub struct Users {
    pub users: Vec<User>,
}

/// The value of a count fetch, with a failure read as 0.
pub open spec fn count_or_zero(r: Result<u32, FetchError>) -> nat {
    match r {
        Ok(n) => n as nat,
        Err(_) => 0,
    }
}

/// Degrades a count fetch to its value, or to 0 where it failed.
pub fn count_or_default(r: &Result<u32, FetchError>) -> (n: u32)
    ensures
        n as nat == count_or_zero(*r),
{
    match r {
        Ok(n) => *n,
        Err(_) => 0,
    }
}

} // verus!
