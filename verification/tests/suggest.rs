use std::collections::HashMap;

use ownrs::suggest::types::TeamSuggestion;
use ownrs::suggest::{count_activity, recent_pull_requests, score_teams};

fn make_team_members() -> HashMap<String, Vec<String>> {
    let mut m = HashMap::new();
    m.insert("team-platform".to_string(), vec!["alice".to_string(), "bob".to_string()]);
    m.insert("team-infra".to_string(), vec!["charlie".to_string()]);
    m
}

fn pairs<V>(m: HashMap<String, V>) -> Vec<(String, V)> {
    m.into_iter().collect()
}

#[test]
fn scores_teams_from_activity() {
    let team_members = make_team_members();
    let mut commit_authors = HashMap::new();
    commit_authors.insert("alice".to_string(), 3);
    commit_authors.insert("bob".to_string(), 2);
    commit_authors.insert("charlie".to_string(), 1);

    let pr_reviewers = HashMap::new();

    let result = score_teams(&pairs(team_members), &pairs(commit_authors), &pairs(pr_reviewers), 90);

    assert_eq!(result.suggestions.len(), 2);
    assert_eq!(result.suggestions[0].team, "team-platform");
    assert_eq!(result.suggestions[0].commits, 5);
    assert_eq!(result.suggestions[0].reviews, 0);
    assert_eq!(result.suggestions[0].members.len(), 2);
    assert_eq!(result.suggestions[1].team, "team-infra");
    assert_eq!(result.suggestions[1].commits, 1);
    assert!(result.unresolved.is_empty());
}

#[test]
fn unresolved_contributors_tracked() {
    let team_members = make_team_members();
    let mut commit_authors = HashMap::new();
    commit_authors.insert("alice".to_string(), 1);
    commit_authors.insert("external-dev".to_string(), 5);

    let pr_reviewers = HashMap::new();

    let result = score_teams(&pairs(team_members), &pairs(commit_authors), &pairs(pr_reviewers), 90);

    assert_eq!(result.suggestions.len(), 1);
    assert_eq!(result.suggestions[0].team, "team-platform");
    assert!(result.unresolved.contains(&"external-dev".to_string()));
}

#[test]
fn reviews_counted_in_scoring() {
    let team_members = make_team_members();
    let commit_authors = HashMap::new();
    let mut pr_reviewers = HashMap::new();
    pr_reviewers.insert("charlie".to_string(), 5);

    let result = score_teams(&pairs(team_members), &pairs(commit_authors), &pairs(pr_reviewers), 90);

    assert_eq!(result.suggestions[0].team, "team-infra");
    assert_eq!(result.suggestions[0].reviews, 5);
    assert_eq!(result.suggestions[0].commits, 0);
}

#[test]
fn person_in_multiple_teams_counts_for_all() {
    let mut team_members = HashMap::new();
    team_members.insert("team-a".to_string(), vec!["alice".to_string()]);
    team_members.insert("team-b".to_string(), vec!["alice".to_string()]);

    let mut commit_authors = HashMap::new();
    commit_authors.insert("alice".to_string(), 3);

    let pr_reviewers = HashMap::new();

    let result = score_teams(&pairs(team_members), &pairs(commit_authors), &pairs(pr_reviewers), 90);

    assert_eq!(result.suggestions.len(), 2);
    for suggestion in &result.suggestions {
        assert_eq!(suggestion.commits, 3);
    }
}

#[test]
fn top_3_limit() {
    let mut team_members = HashMap::new();
    team_members.insert("team-a".to_string(), vec!["a".to_string()]);
    team_members.insert("team-b".to_string(), vec!["b".to_string()]);
    team_members.insert("team-c".to_string(), vec!["c".to_string()]);
    team_members.insert("team-d".to_string(), vec!["d".to_string()]);

    let mut commit_authors = HashMap::new();
    commit_authors.insert("a".to_string(), 4);
    commit_authors.insert("b".to_string(), 3);
    commit_authors.insert("c".to_string(), 2);
    commit_authors.insert("d".to_string(), 1);

    let pr_reviewers = HashMap::new();

    let result = score_teams(&pairs(team_members), &pairs(commit_authors), &pairs(pr_reviewers), 90);

    assert_eq!(result.suggestions.len(), 3);
    assert_eq!(result.suggestions[0].team, "team-a");
    assert_eq!(result.suggestions[2].team, "team-c");
}

#[test]
fn no_activity_returns_empty() {
    let team_members = make_team_members();
    let commit_authors = HashMap::new();
    let pr_reviewers = HashMap::new();

    let result = score_teams(&pairs(team_members), &pairs(commit_authors), &pairs(pr_reviewers), 90);

    assert!(result.suggestions.is_empty());
    assert!(result.unresolved.is_empty());
}

#[test]
fn suggestions_sort_by_total_activity_desc() {
    let mut suggestions = vec![
        TeamSuggestion {
            team: "low-team".to_string(),
            commits: 1,
            reviews: 0,
            members: vec!["alice".to_string()],
        },
        TeamSuggestion {
            team: "high-team".to_string(),
            commits: 5,
            reviews: 3,
            members: vec!["bob".to_string(), "carol".to_string()],
        },
        TeamSuggestion {
            team: "mid-team".to_string(),
            commits: 2,
            reviews: 2,
            members: vec!["dave".to_string()],
        },
    ];
    suggestions.sort_by(|a, b| {
        let a_total = a.commits + a.reviews;
        let b_total = b.commits + b.reviews;
        b_total
            .cmp(&a_total)
            .then(b.members.len().cmp(&a.members.len()))
    });
    assert_eq!(suggestions[0].team, "high-team");
    assert_eq!(suggestions[1].team, "mid-team");
    assert_eq!(suggestions[2].team, "low-team");
}

#[test]
fn tiebreak_by_member_count() {
    let mut suggestions = vec![
        TeamSuggestion {
            team: "fewer-members".to_string(),
            commits: 3,
            reviews: 0,
            members: vec!["alice".to_string()],
        },
        TeamSuggestion {
            team: "more-members".to_string(),
            commits: 2,
            reviews: 1,
            members: vec!["bob".to_string(), "carol".to_string()],
        },
    ];
    suggestions.sort_by(|a, b| {
        let a_total = a.commits + a.reviews;
        let b_total = b.commits + b.reviews;
        b_total
            .cmp(&a_total)
            .then(b.members.len().cmp(&a.members.len()))
    });
    assert_eq!(suggestions[0].team, "more-members");
}

// --- further cases ---

fn s(x: &str) -> String {
    x.to_string()
}

#[test]
fn ranking_breaks_ties_by_active_members() {
    let team_members = vec![
        (s("solo"), vec![s("alice")]),
        (s("pair"), vec![s("bob"), s("carol")]),
    ];
    let commits = vec![(s("alice"), 2), (s("bob"), 1), (s("carol"), 1)];
    let result = score_teams(&team_members, &commits, &[], 30);
    assert_eq!(result.suggestions[0].team, "pair");
    assert_eq!(result.suggestions[0].members, vec!["bob", "carol"]);
    assert_eq!(result.suggestions[1].team, "solo");
    assert_eq!(result.lookback_days, 30);
}

#[test]
fn unresolved_are_sorted_and_listed_once() {
    let team_members = vec![(s("t"), vec![s("member")])];
    let commits = vec![(s("zed"), 1), (s("amy"), 2), (s("member"), 1)];
    let reviews = vec![(s("zed"), 4), (s("bo"), 1)];
    let result = score_teams(&team_members, &commits, &reviews, 90);
    assert_eq!(result.unresolved, vec!["amy", "bo", "zed"]);
    assert_eq!(result.suggestions.len(), 1);
    assert_eq!(result.suggestions[0].commits, 1);
    assert_eq!(result.suggestions[0].reviews, 0);
}

#[test]
fn teams_without_activity_are_not_suggested() {
    let team_members = vec![(s("quiet"), vec![s("ann")]), (s("busy"), vec![s("ben")])];
    let commits = vec![(s("ann"), 0), (s("ben"), 2)];
    let result = score_teams(&team_members, &commits, &[], 90);
    assert_eq!(result.suggestions.len(), 1);
    assert_eq!(result.suggestions[0].team, "busy");
}

#[test]
fn activity_is_counted_per_login() {
    let logins = vec![s("a"), s("b"), s("a"), s("a")];
    let mut counts = count_activity(&logins);
    counts.sort();
    assert_eq!(counts, vec![(s("a"), 3), (s("b"), 1)]);
    assert!(count_activity(&[]).is_empty());
}

#[test]
fn recent_pull_requests_stop_at_the_first_older_one() {
    let page = vec![(10u64, 500i64), (9, 400), (8, 100), (7, 450)];
    assert_eq!(recent_pull_requests(&page, 300), vec![10, 9]);
    assert_eq!(recent_pull_requests(&page, 600), Vec::<u64>::new());
    assert_eq!(recent_pull_requests(&page, 50), vec![10, 9, 8, 7]);
}
