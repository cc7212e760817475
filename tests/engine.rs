use gitlab_metrics::engine::{
    average, compute_group_metrics, compute_team_metrics, compute_user_metrics, mean_seconds, members_or_empty,
    projects_or_empty, users_from_listing,
};
use gitlab_metrics::model::{
    count_or_default, FetchError, MemberActivity, MergeRequestStats, Project, ProjectActivity,
};
use gitlab_metrics::range::{Date, TimeRange};
use gitlab_metrics::workload::rank_workloads;
use gitlab_metrics::model::UserWorkload;

fn project(name: &str, archived: bool, commits: Result<u32, FetchError>) -> ProjectActivity {
    ProjectActivity { name: name.to_string(), archived, commits }
}

fn member(user: &str, commits: Result<u32, FetchError>, reviews: Result<u32, FetchError>) -> MemberActivity {
    MemberActivity { user: user.to_string(), commits, reviews, merged: Ok(0) }
}

fn member_merged(user: &str, merged: Result<u32, FetchError>) -> MemberActivity {
    MemberActivity { user: user.to_string(), commits: Ok(1), reviews: Ok(0), merged }
}

fn mr(lines_changed: u32, first_review_wait: Option<u32>, reworked: bool) -> MergeRequestStats {
    MergeRequestStats { lines_changed, first_review_wait, reworked }
}

#[test]
fn group_total_is_sum_of_project_counts() {
    let projects = vec![project("api", false, Ok(10)), project("web", false, Ok(25)), project("ops", false, Ok(7))];
    let m = compute_group_metrics(&projects);
    assert_eq!(m.total_commits, 42);
    assert!(m.inactive_projects.is_empty());
}

#[test]
fn group_total_does_not_depend_on_arrival_order() {
    let a = vec![project("api", false, Ok(10)), project("web", false, Ok(25)), project("ops", false, Ok(7))];
    let b = vec![project("ops", false, Ok(7)), project("api", false, Ok(10)), project("web", false, Ok(25))];
    assert_eq!(compute_group_metrics(&a).total_commits, compute_group_metrics(&b).total_commits);
}

#[test]
fn empty_group_gives_zero_metrics() {
    let m = compute_group_metrics(&Vec::new());
    assert_eq!(m.total_commits, 0);
    assert!(m.inactive_projects.is_empty());
    assert_eq!(m.cycle_time_avg, None);
    assert_eq!(m.deployment_frequency, None);
}

#[test]
fn failed_project_fetch_contributes_zero() {
    let projects = vec![
        project("api", false, Ok(10)),
        project("web", false, Err(FetchError::Transport)),
        project("ops", false, Err(FetchError::Status(503))),
        project("docs", false, Ok(5)),
    ];
    let m = compute_group_metrics(&projects);
    assert_eq!(m.total_commits, 15);
    assert!(m.inactive_projects.is_empty());
}

#[test]
fn inactive_projects_are_archived_or_without_commits() {
    let projects = vec![
        project("old", true, Ok(3)),
        project("api", false, Ok(10)),
        project("quiet", false, Ok(0)),
        project("down", false, Err(FetchError::Malformed)),
        project("gone", true, Err(FetchError::Transport)),
    ];
    let m = compute_group_metrics(&projects);
    assert_eq!(m.total_commits, 13);
    assert_eq!(m.inactive_projects, vec!["old".to_string(), "quiet".to_string(), "gone".to_string()]);
}

#[test]
fn group_total_beyond_a_single_count() {
    let projects = vec![project("a", false, Ok(u32::MAX)), project("b", false, Ok(u32::MAX))];
    assert_eq!(compute_group_metrics(&projects).total_commits, 2 * u32::MAX as u64);
}

#[test]
fn failed_project_listing_gives_no_projects() {
    assert!(projects_or_empty(Err(FetchError::Transport)).is_empty());
    let listed = vec![Project { id: 1, name: "api".to_string(), archived: false }];
    let kept = projects_or_empty(Ok(listed));
    assert_eq!(kept.len(), 1);
    assert_eq!(kept[0].name, "api");
}

#[test]
fn count_fetch_degrades_to_zero() {
    assert_eq!(count_or_default(&Ok(12)), 12);
    assert_eq!(count_or_default(&Err(FetchError::Status(404))), 0);
}

fn users_of(ws: &[UserWorkload]) -> Vec<String> {
    ws.iter().map(|w| w.user.clone()).collect()
}

#[test]
fn workload_sorted_by_commits_descending() {
    let members = vec![member("bob", Ok(30), Ok(5)), member("alice", Ok(45), Ok(10))];
    let m = compute_team_metrics(&members, &vec![]);
    assert_eq!(users_of(&m.workload_distribution), vec!["alice", "bob"]);
    assert_eq!(m.workload_distribution[0].commits, 45);
    assert_eq!(m.workload_distribution[0].reviews, 10);
    assert_eq!(m.workload_distribution[1].commits, 30);
    assert_eq!(m.workload_distribution[1].reviews, 5);
    assert_eq!(m.mr_throughput, 0);
}

#[test]
fn workload_ties_broken_by_name_ascending() {
    let members = vec![
        member("carol", Ok(5), Ok(0)),
        member("bob", Ok(9), Ok(1)),
        member("alice", Ok(5), Ok(2)),
        member("Zed", Ok(5), Ok(0)),
        member("al", Ok(5), Ok(0)),
    ];
    let m = compute_team_metrics(&members, &vec![]);
    assert_eq!(users_of(&m.workload_distribution), vec!["bob", "Zed", "al", "alice", "carol"]);
}

#[test]
fn failed_member_counts_read_as_zero() {
    let members = vec![member("dave", Err(FetchError::Transport), Ok(3)), member("erin", Ok(1), Err(FetchError::Malformed))];
    let m = compute_team_metrics(&members, &vec![]);
    assert_eq!(users_of(&m.workload_distribution), vec!["erin", "dave"]);
    assert_eq!(m.workload_distribution[0].reviews, 0);
    assert_eq!(m.workload_distribution[1].commits, 0);
    assert_eq!(m.workload_distribution[1].reviews, 3);
}

#[test]
fn team_review_time_is_mean_wait() {
    let m = compute_team_metrics(&vec![], &vec![3600, 7200, 1800]);
    assert_eq!(m.avg_review_time, 4200);
    assert!(m.workload_distribution.is_empty());
    let none = compute_team_metrics(&vec![], &vec![]);
    assert_eq!(none.avg_review_time, 0);
}

#[test]
fn team_throughput_sums_members_merged() {
    let members = vec![member_merged("a", Ok(4)), member_merged("b", Ok(7)), member_merged("c", Err(FetchError::Transport))];
    assert_eq!(compute_team_metrics(&members, &vec![]).mr_throughput, 11);
    let big = vec![member_merged("a", Ok(u32::MAX)), member_merged("b", Ok(u32::MAX))];
    assert_eq!(compute_team_metrics(&big, &vec![]).mr_throughput, 2 * u32::MAX as u64);
}

#[test]
fn team_without_members_is_empty() {
    let m = compute_team_metrics(&vec![], &vec![]);
    assert_eq!(m.mr_throughput, 0);
    assert!(m.workload_distribution.is_empty());
    let failed: Vec<MemberActivity> = members_or_empty(Err(FetchError::Transport))
        .into_iter()
        .map(|u| member(&u, Ok(1), Ok(1)))
        .collect();
    assert!(failed.is_empty());
    assert_eq!(members_or_empty(Ok(vec!["x".to_string()])), vec!["x".to_string()]);
}

#[test]
fn team_order_does_not_depend_on_arrival_order() {
    let a = vec![member("carol", Ok(5), Ok(0)), member("bob", Ok(9), Ok(1)), member("alice", Ok(5), Ok(2))];
    let b = vec![member("alice", Ok(5), Ok(2)), member("carol", Ok(5), Ok(0)), member("bob", Ok(9), Ok(1))];
    let ra = compute_team_metrics(&a, &vec![]);
    let rb = compute_team_metrics(&b, &vec![]);
    assert_eq!(users_of(&ra.workload_distribution), users_of(&rb.workload_distribution));
}

#[test]
fn rank_workloads_orders_entries() {
    let ws = vec![
        UserWorkload { user: "b".to_string(), commits: 1, reviews: 0 },
        UserWorkload { user: "a".to_string(), commits: 1, reviews: 0 },
        UserWorkload { user: "c".to_string(), commits: 2, reviews: 0 },
    ];
    assert_eq!(users_of(&rank_workloads(ws)), vec!["c", "a", "b"]);
}

#[test]
fn user_without_merge_requests_gets_zero_rates() {
    let m = compute_user_metrics(&Ok(14), &TimeRange::unbounded(), &Ok(vec![]));
    assert_eq!(m.mrs_created, 0);
    assert_eq!(m.avg_mr_size, 0);
    assert_eq!(m.time_to_first_review_avg, 0);
    assert_eq!(m.rework_rate, 0);
    let unreachable = compute_user_metrics(&Err(FetchError::Transport), &TimeRange::unbounded(), &Err(FetchError::Transport));
    assert_eq!(unreachable.commits_per_week, 0);
    assert_eq!(unreachable.mrs_created, 0);
    assert_eq!(unreachable.avg_mr_size, 0);
    assert_eq!(unreachable.time_to_first_review_avg, 0);
    assert_eq!(unreachable.rework_rate, 0);
    let failed = compute_user_metrics(&Ok(14), &TimeRange::unbounded(), &Err(FetchError::Transport));
    assert_eq!(failed.mrs_created, 0);
    assert_eq!(failed.avg_mr_size, 0);
    assert_eq!(failed.time_to_first_review_avg, 0);
    assert_eq!(failed.rework_rate, 0);
}

#[test]
fn user_rates_over_merge_requests() {
    let window = TimeRange::new(
        Some(Date { year: 2024, month: 1, day: 1 }),
        Some(Date { year: 2024, month: 1, day: 14 }),
    )
    .unwrap();
    let mrs = vec![mr(100, Some(3600), true), mr(50, None, false), mr(30, Some(600), false)];
    let m = compute_user_metrics(&Ok(15), &window, &Ok(mrs));
    assert_eq!(m.commits_per_week, 7);
    assert_eq!(m.mrs_created, 3);
    assert_eq!(m.avg_mr_size, 60);
    assert_eq!(m.time_to_first_review_avg, 2100);
    assert_eq!(m.rework_rate, 33);
}

#[test]
fn user_weekly_rate_over_open_and_closed_windows() {
    let open = TimeRange::new(Some(Date { year: 2024, month: 1, day: 1 }), None).unwrap();
    assert_eq!(compute_user_metrics(&Ok(20), &open, &Ok(vec![])).commits_per_week, 20);
    assert_eq!(compute_user_metrics(&Ok(0), &open, &Ok(vec![])).commits_per_week, 0);
    assert_eq!(compute_user_metrics(&Ok(20), &TimeRange::unbounded(), &Ok(vec![])).commits_per_week, 20);
    let week = TimeRange::new(
        Some(Date { year: 2024, month: 1, day: 1 }),
        Some(Date { year: 2024, month: 1, day: 7 }),
    )
    .unwrap();
    assert_eq!(compute_user_metrics(&Ok(20), &week, &Ok(vec![])).commits_per_week, 20);
    assert_eq!(compute_user_metrics(&Err(FetchError::Transport), &week, &Ok(vec![])).commits_per_week, 0);
}

#[test]
fn all_merge_requests_reworked() {
    let m = compute_user_metrics(&Ok(0), &TimeRange::unbounded(), &Ok(vec![mr(1, None, true), mr(2, None, true)]));
    assert_eq!(m.rework_rate, 100);
    assert_eq!(m.time_to_first_review_avg, 0);
    assert_eq!(m.avg_mr_size, 1);
}

#[test]
fn averages_round_down() {
    assert_eq!(average(7, 2), 3);
    assert_eq!(average(7, 0), 0);
    assert_eq!(mean_seconds(&vec![1, 2]), 1);
    assert_eq!(mean_seconds(&vec![u32::MAX, u32::MAX]), u32::MAX as u64);
}

#[test]
fn users_follow_the_listing() {
    let users = users_from_listing(&Ok(vec!["alice".to_string(), "bob".to_string()]));
    let names: Vec<String> = users.users.iter().map(|u| u.username.clone()).collect();
    assert_eq!(names, vec!["alice", "bob"]);
    assert!(users_from_listing(&Err(FetchError::Status(500))).users.is_empty());
}
