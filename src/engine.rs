//! The aggregation engine: folds the outcomes of upstream calls into group,
//! team and user statistics, reading every failed call as a zero or empty
//! contribution.
use vstd::prelude::*;
use crate::model::{
    count_or_default, count_or_zero, FetchError, GroupMetrics, MemberActivity, MergeRequestStats,
    Project, ProjectActivity, TeamMetrics, User, UserMetrics, Users, UserWorkload,
};
use crate::range::{weeks_spanned, TimeRange};
use crate::workload::{
    is_ranked, lemma_names_distinct_permutation, lemma_ranking_is_unique, name_bytes, names_distinct, rank_workloads,
};
use vstd::utf8::encode_utf8;

verus! {

broadcast use vstd::seq_lib::group_to_multiset_ensures;

/// The sum of the commit counts of `s`, a failed count adding 0.
pub open spec fn commits_total(s: Seq<ProjectActivity>) -> nat
    decreases s.len(),
{
    if s.len() == 0 {
        0
    } else {
        commits_total(s.drop_last()) + count_or_zero(s.last().commits)
    }
}

/// A project is inactive when it is archived or had no commit in the window.
/// A project whose count could not be fetched is not known to be inactive.
pub open spec fn is_inactive(p: ProjectActivity) -> bool {
    p.archived || p.commits == Ok::<u32, FetchError>(0u32)
}

/// The names of the inactive projects of `s`, in the order of `s`.
pub open spec fn inactive_names(s: Seq<ProjectActivity>) -> Seq<Seq<char>>
    decreases s.len(),
{
    if s.len() == 0 {
        Seq::empty()
    } else if is_inactive(s.last()) {
        inactive_names(s.drop_last()).push(s.last().name@)
    } else {
        inactive_names(s.drop_last())
    }
}

pub open spec fn names_of(v: Seq<String>) -> Seq<Seq<char>> {
    v.map_values(|s: String| s@)
}

/// The projects of a group listing, or none where the listing failed.
pub fn projects_or_empty(listing: Result<Vec<Project>, FetchError>) -> (r: Vec<Project>)
    ensures
        match listing {
            Ok(v) => r@ == v@,
            Err(_) => r@.len() == 0,
        },
{
    match listing {
        Ok(v) => v,
        Err(_) => Vec::new(),
    }
}

/// Folds the per-project commit counts of a group into its statistics.
pub fn compute_group_metrics(projects: &Vec<ProjectActivity>) -> (r: GroupMetrics)
    requires
        projects@.len() <= u32::MAX,
    ensures
        r.total_commits as nat == commits_total(projects@),
        names_of(r.inactive_projects@) == inactive_names(projects@),
        r.cycle_time_avg is None,
        r.deployment_frequency is None,
        projects@.len() == 0 ==> r.total_commits == 0 && r.inactive_projects@.len() == 0,
{
    let mut total: u64 = 0;
    let mut inactive: Vec<String> = Vec::new();
    let mut i: usize = 0;
    while i < projects.len()
        invariant
            i <= projects@.len() <= u32::MAX,
            total as nat == commits_total(projects@.subrange(0, i as int)),
            total <= i * 0xFFFF_FFFFu64,
            names_of(inactive@) == inactive_names(projects@.subrange(0, i as int)),
        decreases projects@.len() - i,
    {
        let p = &projects[i];
        let ghost prev = projects@.subrange(0, i as int);
        let ghost next = projects@.subrange(0, i + 1);
        assert(next.drop_last() =~= prev);
        let c = count_or_default(&p.commits);
        assert(total + c <= (i + 1) * 0xFFFF_FFFFu64) by (nonlinear_arith)
            requires
                total <= i * 0xFFFF_FFFFu64,
                c <= 0xFFFF_FFFFu64,
        ;
        total = total + c as u64;
        let zero_commits = match &p.commits {
            Ok(n) => *n == 0,
            Err(_) => false,
        };
        if p.archived || zero_commits {
            let ghost before = inactive@;
            inactive.push(p.name.clone());
            assert(names_of(inactive@) =~= names_of(before).push(p.name@));
        }
        i = i + 1;
    }
    assert(projects@.subrange(0, i as int) =~= projects@);
    GroupMetrics {
        cycle_time_avg: None,
        deployment_frequency: None,
        total_commits: total,
        inactive_projects: inactive,
    }
}

/// The sum of a sequence of samples.
pub open spec fn sum_u32(s: Seq<u32>) -> nat
    decreases s.len(),
{
    if s.len() == 0 {
        0
    } else {
        sum_u32(s.drop_last()) + s.last() as nat
    }
}

/// The mean of `count` values summing to `total`, rounded down; 0 for none.
pub open spec fn mean_of(total: nat, count: nat) -> nat {
    if count == 0 {
        0
    } else {
        total / count
    }
}

/// The percentage, rounded down, that `part` is of `whole`; 0 for an empty whole.
pub open spec fn percent_of(part: nat, whole: nat) -> nat {
    if whole == 0 {
        0
    } else {
        part * 100 / whole
    }
}

/// The mean of `count` values summing to `total`, rounded down; 0 for none.
pub fn average(total: u64, count: u64) -> (r: u64)
    ensures
        r == mean_of(total as nat, count as nat),
{
    if count == 0 {
        0
    } else {
        total / count
    }
}

/// The mean of a list of durations in seconds, rounded down; 0 for none.
pub fn mean_seconds(samples: &Vec<u32>) -> (r: u64)
    requires
        samples@.len() <= u32::MAX,
    ensures
        r == mean_of(sum_u32(samples@), samples@.len()),
{
    let mut total: u64 = 0;
    let mut i: usize = 0;
    while i < samples.len()
        invariant
            i <= samples@.len() <= u32::MAX,
            total == sum_u32(samples@.subrange(0, i as int)),
            total <= i * 0xFFFF_FFFFu64,
        decreases samples@.len() - i,
    {
        let x = samples[i];
        assert(samples@.subrange(0, i + 1).drop_last() =~= samples@.subrange(0, i as int));
        assert(total + x <= (i + 1) * 0xFFFF_FFFFu64) by (nonlinear_arith)
            requires
                total <= i * 0xFFFF_FFFFu64,
                x <= 0xFFFF_FFFFu64,
        ;
        total = total + x as u64;
        i = i + 1;
    }
    assert(samples@.subrange(0, i as int) =~= samples@);
    average(total, i as u64)
}

/// The workload of a team member, a failed count read as 0.
pub open spec fn workload_of(m: MemberActivity) -> UserWorkload {
    UserWorkload {
        user: m.user,
        commits: count_or_zero(m.commits) as u32,
        reviews: count_or_zero(m.reviews) as u32,
    }
}

/// No two members of `s` carry the same user name.
pub open spec fn member_names_distinct(s: Seq<MemberActivity>) -> bool {
    forall|i: int, j: int|
        0 <= i < j < s.len() ==> encode_utf8((#[trigger] s[i]).user@) != encode_utf8(
            (#[trigger] s[j]).user@,
        )
}

pub open spec fn workloads_of(s: Seq<MemberActivity>) -> Seq<UserWorkload> {
    s.map_values(|m: MemberActivity| workload_of(m))
}

/// The merged merge requests of the members of `s`, a failed count adding 0.
pub open spec fn merged_total(s: Seq<MemberActivity>) -> nat
    decreases s.len(),
{
    if s.len() == 0 {
        0
    } else {
        merged_total(s.drop_last()) + count_or_zero(s.last().merged)
    }
}

/// The members of a team listing, or none where the listing failed.
pub fn members_or_empty(listing: Result<Vec<String>, FetchError>) -> (r: Vec<String>)
    ensures
        match listing {
            Ok(v) => r@ == v@,
            Err(_) => r@.len() == 0,
        },
{
    match listing {
        Ok(v) => v,
        Err(_) => Vec::new(),
    }
}

/// Folds the activity of a team's members and the waits (in seconds) of
/// its reviews into its statistics; the throughput is the members' merged
/// merge requests, summed.
pub fn compute_team_metrics(members: &Vec<MemberActivity>, review_waits: &Vec<u32>) -> (r:
    TeamMetrics)
    requires
        members@.len() <= u32::MAX,
        review_waits@.len() <= u32::MAX,
    ensures
        r.mr_throughput as nat == merged_total(members@),
        members@.len() == 0 ==> r.mr_throughput == 0 && r.workload_distribution@.len() == 0,
        member_names_distinct(members@) ==> names_distinct(r.workload_distribution@),
        r.avg_review_time == mean_of(sum_u32(review_waits@), review_waits@.len()),
        is_ranked(r.workload_distribution@),
        r.workload_distribution@.to_multiset() == workloads_of(members@).to_multiset(),
{
    let mut workloads: Vec<UserWorkload> = Vec::new();
    let mut merged: u64 = 0;
    let mut i: usize = 0;
    while i < members.len()
        invariant
            i <= members@.len() <= u32::MAX,
            workloads@ == workloads_of(members@.subrange(0, i as int)),
            merged as nat == merged_total(members@.subrange(0, i as int)),
            merged <= i * 0xFFFF_FFFFu64,
        decreases members@.len() - i,
    {
        let m = &members[i];
        assert(members@.subrange(0, i + 1).drop_last() =~= members@.subrange(0, i as int));
        let c = count_or_default(&m.merged);
        assert(merged + c <= (i + 1) * 0xFFFF_FFFFu64) by (nonlinear_arith)
            requires
                merged <= i * 0xFFFF_FFFFu64,
                c <= 0xFFFF_FFFFu64,
        ;
        merged = merged + c as u64;
        let w = UserWorkload {
            user: m.user.clone(),
            commits: count_or_default(&m.commits),
            reviews: count_or_default(&m.reviews),
        };
        workloads.push(w);
        assert(workloads@ =~= workloads_of(members@.subrange(0, i + 1)));
        i = i + 1;
    }
    assert(members@.subrange(0, i as int) =~= members@);
    let ranked = rank_workloads(workloads);
    proof {
        if member_names_distinct(members@) {
            let w = workloads_of(members@);
            assert forall|a: int, b: int| 0 <= a < b < w.len() implies name_bytes(#[trigger] w[a]) != name_bytes(#[trigger] w[b]) by {
                assert(w[a] == workload_of(members@[a]) && w[b] == workload_of(members@[b]));
            }
            lemma_names_distinct_permutation(w, ranked@);
        }
        if members@.len() == 0 {
            assert(ranked@.to_multiset().len() == 0);
        }
    }
    TeamMetrics {
        mr_throughput: merged,
        avg_review_time: mean_seconds(review_waits),
        workload_distribution: ranked,
    }
}

/// The workload distribution does not depend on the order in which members'
/// results arrive: for members with distinct names, any two distributions
/// that `compute_team_metrics` may return for two orders of the same members
/// are equal.
pub proof fn lemma_team_order_independent(
    m1: Seq<MemberActivity>,
    m2: Seq<MemberActivity>,
    d1: Seq<UserWorkload>,
    d2: Seq<UserWorkload>,
)
    requires
        member_names_distinct(m1),
        workloads_of(m1).to_multiset() == workloads_of(m2).to_multiset(),
        is_ranked(d1),
        is_ranked(d2),
        d1.to_multiset() == workloads_of(m1).to_multiset(),
        d2.to_multiset() == workloads_of(m2).to_multiset(),
    ensures
        d1 == d2,
{
    let w = workloads_of(m1);
    assert forall|a: int, b: int| 0 <= a < b < w.len() implies name_bytes(#[trigger] w[a]) != name_bytes(#[trigger] w[b]) by {
        assert(w[a] == workload_of(m1[a]) && w[b] == workload_of(m1[b]));
    }
    lemma_names_distinct_permutation(w, d1);
    lemma_ranking_is_unique(d1, d2);
}

/// The merge requests of a listing, or none where the listing failed.
pub open spec fn merge_requests_of(r: Result<Vec<MergeRequestStats>, FetchError>) -> Seq<
    MergeRequestStats,
> {
    match r {
        Ok(v) => v@,
        Err(_) => Seq::empty(),
    }
}

/// The lines changed by the merge requests of `s`.
pub open spec fn total_lines(s: Seq<MergeRequestStats>) -> nat
    decreases s.len(),
{
    if s.len() == 0 {
        0
    } else {
        total_lines(s.drop_last()) + s.last().lines_changed as nat
    }
}

/// How many merge requests of `s` got a review comment.
pub open spec fn reviewed_count(s: Seq<MergeRequestStats>) -> nat
    decreases s.len(),
{
    if s.len() == 0 {
        0
    } else {
        reviewed_count(s.drop_last()) + if s.last().first_review_wait is Some {
            1nat
        } else {
            0nat
        }
    }
}

/// The sum of the waits for a first review over the reviewed merge requests of `s`.
pub open spec fn total_wait(s: Seq<MergeRequestStats>) -> nat
    decreases s.len(),
{
    if s.len() == 0 {
        0
    } else {
        total_wait(s.drop_last()) + match s.last().first_review_wait {
            Some(w) => w as nat,
            None => 0nat,
        }
    }
}

/// How many merge requests of `s` were reworked after review.
pub open spec fn reworked_count(s: Seq<MergeRequestStats>) -> nat
    decreases s.len(),
{
    if s.len() == 0 {
        0
    } else {
        reworked_count(s.drop_last()) + if s.last().reworked {
            1nat
        } else {
            0nat
        }
    }
}

/// The weeks over which a window's commits are averaged: the weeks a closed
/// window spans, and a single week for a window open on either side, whose
/// length cannot be measured (its count is then reported as it stands).
pub open spec fn rate_weeks(window: TimeRange) -> nat {
    match weeks_spanned(window) {
        Some(w) => if w == 0 {
            1
        } else {
            w
        },
        None => 1,
    }
}

/// The weekly commit rate over a window: the commits divided by its rate
/// weeks, rounded down.
pub open spec fn weekly_rate(commits: nat, window: TimeRange) -> nat {
    commits / rate_weeks(window)
}

/// Folds a user's commit count and merge requests in `window` into their
/// statistics; a failed fetch counts as no commits or no merge requests.
pub fn compute_user_metrics(
    commits: &Result<u32, FetchError>,
    window: &TimeRange,
    merge_requests: &Result<Vec<MergeRequestStats>, FetchError>,
) -> (r: UserMetrics)
    requires
        window.wf(),
        merge_requests_of(*merge_requests).len() <= u32::MAX,
    ensures
        ({
            let s = merge_requests_of(*merge_requests);
            &&& r.commits_per_week == weekly_rate(count_or_zero(*commits), *window)
            &&& r.mrs_created == s.len()
            &&& r.avg_mr_size == mean_of(total_lines(s), s.len())
            &&& r.time_to_first_review_avg == mean_of(total_wait(s), reviewed_count(s))
            &&& r.rework_rate == percent_of(reworked_count(s), s.len())
        }),
        merge_requests_of(*merge_requests).len() == 0 ==> r.mrs_created == 0 && r.avg_mr_size == 0
            && r.time_to_first_review_avg == 0 && r.rework_rate == 0,
        count_or_zero(*commits) == 0 ==> r.commits_per_week == 0,
        commits is Err && merge_requests is Err ==> r.commits_per_week == 0 && r.mrs_created == 0
            && r.avg_mr_size == 0 && r.time_to_first_review_avg == 0 && r.rework_rate == 0,
{
    let c = count_or_default(commits);
    let commits_per_week = match window.span_weeks() {
        Some(w) => c / w,
        None => c,
    };
    let empty: Vec<MergeRequestStats> = Vec::new();
    let mrs = match merge_requests {
        Ok(v) => v,
        Err(_) => &empty,
    };
    let ghost s = mrs@;
    assert(s == merge_requests_of(*merge_requests));
    let mut lines: u64 = 0;
    let mut reviewed: u64 = 0;
    let mut wait: u64 = 0;
    let mut reworked: u64 = 0;
    let mut i: usize = 0;
    while i < mrs.len()
        invariant
            s == mrs@,
            i <= s.len() <= u32::MAX,
            lines == total_lines(s.subrange(0, i as int)),
            reviewed == reviewed_count(s.subrange(0, i as int)),
            wait == total_wait(s.subrange(0, i as int)),
            reworked == reworked_count(s.subrange(0, i as int)),
            lines <= i * 0xFFFF_FFFFu64,
            wait <= i * 0xFFFF_FFFFu64,
            reviewed <= i,
            reworked <= i,
        decreases s.len() - i,
    {
        let m = &mrs[i];
        assert(s.subrange(0, i + 1).drop_last() =~= s.subrange(0, i as int));
        let x = m.lines_changed;
        assert(lines + x <= (i + 1) * 0xFFFF_FFFFu64) by (nonlinear_arith)
            requires
                lines <= i * 0xFFFF_FFFFu64,
                x <= 0xFFFF_FFFFu64,
        ;
        lines = lines + x as u64;
        match m.first_review_wait {
            Some(w) => {
                assert(wait + w <= (i + 1) * 0xFFFF_FFFFu64) by (nonlinear_arith)
                    requires
                        wait <= i * 0xFFFF_FFFFu64,
                        w <= 0xFFFF_FFFFu64,
                ;
                wait = wait + w as u64;
                reviewed = reviewed + 1;
            },
            None => {
                assert(wait <= (i + 1) * 0xFFFF_FFFFu64) by (nonlinear_arith)
                    requires
                        wait <= i * 0xFFFF_FFFFu64,
                ;
            },
        }
        if m.reworked {
            reworked = reworked + 1;
        }
        i = i + 1;
    }
    assert(s.subrange(0, i as int) =~= s);
    let n = i as u64;
    let rework_rate: u32 = if n == 0 {
        0
    } else {
        assert(reworked * 100 <= n * 100) by (nonlinear_arith)
            requires
                reworked <= n,
        ;
        assert((reworked * 100) as int / (n as int) <= 100) by (nonlinear_arith)
            requires
                reworked <= n,
                n > 0,
        ;
        (reworked * 100 / n) as u32
    };
    UserMetrics {
        commits_per_week,
        mrs_created: i as u32,
        avg_mr_size: average(lines, n),
        time_to_first_review_avg: average(wait, reviewed),
        rework_rate,
    }
}

pub open spec fn user_names(v: Seq<User>) -> Seq<Seq<char>> {
    v.map_values(|u: User| u.username@)
}

/// The user names of a listing, or none where the listing failed.
pub open spec fn usernames_of(listing: Result<Vec<String>, FetchError>) -> Seq<Seq<char>> {
    match listing {
        Ok(v) => names_of(v@),
        Err(_) => Seq::empty(),
    }
}

/// The users of a listing of user names, in its order; none where the
/// listing failed.
pub fn users_from_listing(listing: &Result<Vec<String>, FetchError>) -> (r: Users)
    ensures
        user_names(r.users@) == usernames_of(*listing),
{
    let mut users: Vec<User> = Vec::new();
    if let Ok(names) = listing {
        let mut i: usize = 0;
        while i < names.len()
            invariant
                i <= names@.len(),
                users@.len() == i,
                user_names(users@) == names_of(names@.subrange(0, i as int)),
            decreases names@.len() - i,
        {
            let ghost before = users@;
            let name = names[i].clone();
            users.push(User { username: name });
            assert forall|k: int| 0 <= k < i implies users@[k].username@ == names@[k]@ by {
                assert(user_names(before)[k] == names_of(names@.subrange(0, i as int))[k]);
                assert(users@[k] == before[k]);
                assert(names@.subrange(0, i as int)[k] == names@[k]);
            }
            assert(users@[i as int].username@ == names@[i as int]@);
            assert(user_names(users@) =~= names_of(names@.subrange(0, i + 1)));
            i = i + 1;
        }
        assert(names@.subrange(0, i as int) =~= names@);
    } else {
        assert(user_names(users@) =~= Seq::<Seq<char>>::empty());
    }
    Users { users }
}

/// Taking one project out of a group takes its count out of the total.
pub proof fn lemma_total_without(s: Seq<ProjectActivity>, i: int)
    requires
        0 <= i < s.len(),
    ensures
        commits_total(s) == commits_total(s.remove(i)) + count_or_zero(s[i].commits),
    decreases s.len(),
{
    if i == s.len() - 1 {
        assert(s.remove(i) =~= s.drop_last());
    } else {
        lemma_total_without(s.drop_last(), i);
        assert(s.drop_last().remove(i) =~= s.remove(i).drop_last());
    }
}

/// The group total does not depend on the order in which the per-project
/// counts arrive: any two arrival orders of the same outcomes sum alike.
pub proof fn lemma_total_order_independent(a: Seq<ProjectActivity>, b: Seq<ProjectActivity>)
    requires
        a.to_multiset() == b.to_multiset(),
    ensures
        commits_total(a) == commits_total(b),
    decreases a.len(),
{
    if a.len() == 0 {
        assert(b.to_multiset().len() == 0);
        assert(b.len() == 0);
    } else {
        let x = a.last();
        assert(a.drop_last().push(x) =~= a);
        assert(a.to_multiset() == a.drop_last().to_multiset().insert(x));
        assert(b.to_multiset().count(x) > 0);
        assert(b.contains(x));
        let j = choose|j: int| 0 <= j < b.len() && b[j] == x;
        assert(b.remove(j).to_multiset() == b.to_multiset().remove(x));
        assert(a.drop_last().to_multiset() =~= a.drop_last().to_multiset().insert(x).remove(x));
        lemma_total_order_independent(a.drop_last(), b.remove(j));
        lemma_total_without(b, j);
    }
}

/// A project whose count could not be fetched contributes 0: the total is
/// that of the group without it.
pub proof fn lemma_failed_fetch_contributes_zero(s: Seq<ProjectActivity>, i: int)
    requires
        0 <= i < s.len(),
        s[i].commits is Err,
    ensures
        commits_total(s) == commits_total(s.remove(i)),
{
    lemma_total_without(s, i);
}

} // verus!
