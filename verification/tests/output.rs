use ownrs::audit::audit_org;
use ownrs::cli::{RepoExclude, Visibility};
use ownrs::github::repos::{keeps_repo, listed_repos, listing_cache_key, RepoInfo, RepoNode};
use ownrs::cli::StatusFilter;
use ownrs::output::csv::{csv_header, csv_record};
use ownrs::output::report::single_repo_report;
use ownrs::cli::SortOrder;
use ownrs::output::table::{
    default_columns, layout_table, org_table_order, render_names, render_table, sort_columns_for,
    sort_repos, wide_columns, Column, TableOptions,
};
use ownrs::sources::fetcher::{source_cache_keys, RepoSources};
use ownrs::output::tally::tally_footer;
use ownrs::reconcile::types::{AlignmentStatus, AuditSummary, RepoOwnership};
use ownrs::suggest::types::{SuggestionResult, TeamSuggestion};
use ownrs::suggest::{eligible_teams, suggest_owners};
use ownrs::text::decimal_string;

fn s(x: &str) -> String {
    x.to_string()
}

fn repo(name: &str, alignment: AlignmentStatus) -> RepoOwnership {
    RepoOwnership {
        repo_name: s(name),
        pushed_at: None,
        catalog_owner: None,
        codeowners_teams: vec![],
        catalog_team_exists: None,
        codeowners_teams_exist: vec![],
        admin_teams: vec![],
        alignment,
        notes: vec![],
        suggested_owners: None,
    }
}

// 2024-03-05T00:00:00Z
const MARCH_5: i64 = 1709596800;

fn opts(sort: &[&str], wide: bool, team: Option<&str>) -> TableOptions {
    TableOptions {
        wide,
        sort_columns: sort.iter().map(|c| s(c)).collect(),
        team_filter: team.map(s),
    }
}

#[test]
fn column_lists_and_names() {
    assert_eq!(default_columns().len(), 5);
    assert_eq!(wide_columns().len(), 7);
    assert_eq!(wide_columns()[5], Column::AdminTeams);
    assert_eq!(wide_columns()[6], Column::Notes);
    assert_eq!(Column::CodeownersTeams.header(), "CODEOWNERS TEAMS");
    assert_eq!(Column::LastPush.sort_key(), "last-push");
    assert_eq!(Column::CatalogOwner.sort_key(), "catalog-owner");
}

#[test]
fn default_table_is_sorted_by_name_ignoring_case() {
    let mut beta = repo("beta", AlignmentStatus::Aligned);
    beta.catalog_owner = Some(s("team-a"));
    beta.codeowners_teams = vec![s("team-a")];
    beta.pushed_at = Some(MARCH_5);
    let mut alpha = repo("Alpha", AlignmentStatus::Missing);
    alpha.notes = vec![s("No ownership metadata found")];
    let out = render_table(&[beta, alpha], &opts(&[], false, None), "");
    let expected = [
        s("repos(all)[2]"),
        format!("{:<5}  {:<7}  {:<13}  {:<16}  {:<10}", "REPO", "STATUS", "CATALOG OWNER", "CODEOWNERS TEAMS", "LAST PUSH"),
        format!("{:<5}  {:<7}  {:<13}  {:<16}  {:<10}", "Alpha", "missing", "-", "-", "-"),
        format!("{:<5}  {:<7}  {:<13}  {:<16}  {:<10}", "beta", "aligned", "team-a", "team-a", "2024-03-05"),
    ];
    assert_eq!(out, expected.join("\n") + "\n");
}

#[test]
fn wide_table_shows_admin_teams_notes_footer_and_team_label() {
    let mut a = repo("svc", AlignmentStatus::AdminOnly);
    a.admin_teams = vec![s("ops"), s("sre")];
    a.notes = vec![s("one"), s("two")];
    let out = render_table(&[a], &opts(&[], true, Some("ops,sre")), "1 admin-only (100%)");
    let expected = [
        s("repos(ops,sre)[1]"),
        format!(
            "{:<4}  {:<10}  {:<13}  {:<16}  {:<9}  {:<11}  {:<8}",
            "REPO", "STATUS", "CATALOG OWNER", "CODEOWNERS TEAMS", "LAST PUSH", "ADMIN TEAMS", "NOTES"
        ),
        format!(
            "{:<4}  {:<10}  {:<13}  {:<16}  {:<9}  {:<11}  {:<8}",
            "svc", "admin-only", "-", "-", "-", "ops, sre", "one; two"
        ),
        s("1 admin-only (100%)"),
    ];
    assert_eq!(out, expected.join("\n") + "\n");
}

#[test]
fn sort_arrow_marks_the_first_sort_column() {
    let a = repo("b", AlignmentStatus::Stale);
    let b = repo("a", AlignmentStatus::Aligned);
    let out = render_table(&[a, b], &opts(&["Status", "repo"], false, None), "");
    let lines: Vec<&str> = out.lines().collect();
    assert_eq!(lines[1], "REPO  STATUS\u{2191}  CATALOG OWNER  CODEOWNERS TEAMS  LAST PUSH");
    assert!(lines[2].starts_with("a     aligned"));
    assert!(lines[3].starts_with("b     stale"));
}

#[test]
fn long_cells_are_cut_with_an_ellipsis() {
    let long = "x".repeat(40);
    let out = render_table(&[repo(&long, AlignmentStatus::Missing)], &opts(&[], false, None), "");
    let lines: Vec<&str> = out.lines().collect();
    let cut = format!("{}\u{2026}", "x".repeat(29));
    assert!(lines[2].starts_with(&format!("{cut}  missing")));
    assert!(lines[1].starts_with(&format!("REPO{}  STATUS", " ".repeat(26))));
}

#[test]
fn last_push_sort_puts_missing_pushes_first_and_keeps_ties_in_order() {
    let mut a = repo("a", AlignmentStatus::Aligned);
    a.pushed_at = Some(MARCH_5);
    let mut b = repo("b", AlignmentStatus::Aligned);
    b.pushed_at = Some(MARCH_5 - 10);
    let c = repo("c", AlignmentStatus::Aligned);
    let mut d = repo("d", AlignmentStatus::Aligned);
    d.pushed_at = Some(MARCH_5 - 10);
    let order = sort_repos(&[a, b, c, d], &[s("last-push")]);
    assert_eq!(order, vec![2, 1, 3, 0]);
}

#[test]
fn multi_column_sort_and_unknown_columns() {
    let rows = [
        repo("b", AlignmentStatus::Stale),
        repo("a", AlignmentStatus::Stale),
        repo("c", AlignmentStatus::Aligned),
    ];
    assert_eq!(sort_repos(&rows, &[s("status"), s("repo")]), vec![2, 1, 0]);
    assert_eq!(sort_repos(&rows, &[s("status")]), vec![2, 0, 1]);
    assert_eq!(sort_repos(&rows, &[s("nonsense")]), vec![0, 1, 2]);
    assert_eq!(sort_repos(&rows, &[]), vec![1, 0, 2]);
}

#[test]
fn layout_follows_the_given_order() {
    let rows = [repo("b", AlignmentStatus::Stale), repo("a", AlignmentStatus::Stale)];
    let out = layout_table(&rows, &vec![0, 1], &opts(&[], false, None), "");
    let lines: Vec<&str> = out.lines().collect();
    assert!(lines[2].starts_with("b "));
    assert!(lines[3].starts_with("a "));
}

#[test]
fn names_are_listed_in_byte_order() {
    let rows = [
        repo("beta", AlignmentStatus::Aligned),
        repo("alpha", AlignmentStatus::Aligned),
        repo("Alpha", AlignmentStatus::Aligned),
    ];
    assert_eq!(render_names(&rows), "Alpha\nalpha\nbeta\n");
    assert_eq!(render_names(&[]), "");
}

#[test]
fn decimal_text() {
    assert_eq!(decimal_string(0), "0");
    assert_eq!(decimal_string(7), "7");
    assert_eq!(decimal_string(90), "90");
    assert_eq!(decimal_string(18446744073709551615), "18446744073709551615");
}

#[test]
fn single_repo_report_lists_every_source() {
    let mut r = repo("forgotten-service", AlignmentStatus::Stale);
    r.catalog_owner = Some(s("team-gone"));
    r.catalog_team_exists = Some(false);
    r.codeowners_teams = vec![s("team-a"), s("team-b")];
    r.codeowners_teams_exist = vec![(s("team-a"), true), (s("team-b"), false)];
    r.pushed_at = Some(MARCH_5 + 14 * 3600 + 7 * 60);
    r.notes = vec![s("note one"), s("note two")];
    r.suggested_owners = Some(SuggestionResult {
        suggestions: vec![
            TeamSuggestion {
                team: s("platform-team"),
                commits: 12,
                reviews: 4,
                members: vec![s("alice"), s("bob")],
            },
            TeamSuggestion {
                team: s("infra-team"),
                commits: 1,
                reviews: 1,
                members: vec![s("charlie")],
            },
        ],
        unresolved: vec![s("ghost"), s("zed")],
        lookback_days: 90,
    });
    let expected = "Repository: forgotten-service\n\
Status:     stale\n\
Catalog:    team-gone (team NOT found)\n\
CODEOWNERS: team-a (team exists)\n\
CODEOWNERS: team-b (team NOT found)\n\
Admin:      (none)\n\
Last Push:  2024-03-05 14:07 UTC\n\
Notes:      note one; note two\n\
\n\
Suggested owners (based on last 90 days of activity):\n\
\x20 platform-team    12 commits, 4 reviews (alice, bob)\n\
\x20 infra-team       1 commit, 1 review (charlie)\n\
\n\
Unresolved:        ghost, zed\n";
    assert_eq!(single_repo_report(&r), expected);
}

#[test]
fn single_repo_report_without_sources() {
    let mut r = repo("empty", AlignmentStatus::Missing);
    r.admin_teams = vec![s("ops")];
    r.suggested_owners = Some(SuggestionResult { suggestions: vec![], unresolved: vec![], lookback_days: 30 });
    let expected = "Repository: empty\n\
Status:     missing\n\
Catalog:    (none)\n\
CODEOWNERS: (none)\n\
Admin:      ops\n\
\n\
Suggested:  No activity found in last 30 days\n";
    assert_eq!(single_repo_report(&r), expected);
}

fn sources(name: &str, codeowners: Option<&str>, admin: &[&str]) -> RepoSources {
    RepoSources {
        repo_name: s(name),
        codeowners: codeowners.map(s),
        catalog_info: None,
        admin_teams: admin.iter().map(|a| s(a)).collect(),
    }
}

#[test]
fn org_audit_reconciles_and_filters() {
    let srcs = [
        sources("api", Some("* @acme/team-a\n"), &["team-a"]),
        sources("web", None, &[]),
        sources("old", Some("* @acme/team-gone\n"), &[]),
    ];
    let owners = [Some(s("team-a")), None, None];
    let listing = [
        RepoInfo { name: s("web"), pushed_at: Some(5) },
        RepoInfo { name: s("api"), pushed_at: Some(9) },
    ];
    let valid = [s("team-a")];

    let all = audit_org(&srcs, &owners, &listing, &valid, false, &[], &[]);
    assert_eq!(all.len(), 3);
    assert_eq!(all[0].repo_name, "api");
    assert_eq!(all[0].alignment, AlignmentStatus::Aligned);
    assert_eq!(all[0].pushed_at, Some(9));
    assert_eq!(all[1].alignment, AlignmentStatus::Missing);
    assert_eq!(all[1].pushed_at, Some(5));
    assert_eq!(all[2].alignment, AlignmentStatus::Stale);
    assert_eq!(all[2].pushed_at, None);

    let stale = audit_org(&srcs, &owners, &listing, &valid, false, &[], &[StatusFilter::Stale]);
    assert_eq!(stale.len(), 1);
    assert_eq!(stale[0].repo_name, "old");

    let team = audit_org(&srcs, &owners, &listing, &valid, false, &[s("TEAM-A")], &[]);
    assert_eq!(team.len(), 1);
    assert_eq!(team[0].repo_name, "api");
}

fn members(n: usize, prefix: &str) -> Vec<String> {
    (0..n).map(|i| format!("{prefix}{i}")).collect()
}

#[test]
fn org_wide_and_excluded_teams_are_not_suggested() {
    let mut everyone = members(25, "u");
    everyone.push(s("alice"));
    let teams = vec![
        (s("everyone"), everyone),
        (s("platform"), vec![s("alice")]),
        (s("bots"), vec![s("alice")]),
    ];
    let kept = eligible_teams(&teams, 20, &[s("bots")]);
    assert_eq!(kept.len(), 1);
    assert_eq!(kept[0].0, "platform");

    let commits = vec![(s("alice"), 3)];
    let r = suggest_owners(&teams, &commits, &[], 90, 20, &[s("bots")]).unwrap();
    assert_eq!(r.suggestions.len(), 1);
    assert_eq!(r.suggestions[0].team, "platform");
    assert_eq!(r.suggestions[0].commits, 3);
    assert_eq!(r.lookback_days, 90);
    assert!(r.unresolved.is_empty());
}

#[test]
fn suggestions_need_each_login_once() {
    let teams = vec![(s("platform"), vec![s("alice")])];
    let twice = vec![(s("alice"), 1), (s("alice"), 2)];
    assert!(suggest_owners(&teams, &twice, &[], 90, 20, &[]).is_none());
    let huge = vec![(s("alice"), usize::MAX)];
    let one = vec![(s("alice"), 1)];
    assert!(suggest_owners(&teams, &huge, &one, 90, 20, &[]).is_none());
    assert!(suggest_owners(&teams, &huge, &[], 90, 20, &[]).is_some());
}

#[test]
fn repo_names_sort_ignoring_case() {
    let rows = [repo("B-service", AlignmentStatus::Aligned), repo("a-service", AlignmentStatus::Aligned)];
    assert_eq!(sort_repos(&rows, &[]), vec![1, 0]);
    assert_eq!(sort_repos(&rows, &[s("REPO")]), vec![1, 0]);
    assert_eq!(render_names(&rows), "B-service\na-service\n");
}

fn node(name: &str, archived: bool, fork: bool, visibility: &str) -> RepoNode {
    RepoNode {
        name: s(name),
        pushed_at: Some(s("2024-03-05T00:00:00Z")),
        is_archived: archived,
        is_fork: fork,
        is_empty: false,
        is_template: false,
        is_mirror: false,
        visibility: s(visibility),
    }
}

#[test]
fn listing_leaves_out_excluded_repos() {
    let nodes = [
        node("live", false, false, "PUBLIC"),
        node("old", true, false, "PRIVATE"),
        node("copy", false, true, "INTERNAL"),
    ];
    let ex = [RepoExclude::Archived, RepoExclude::Forks];
    let kept = listed_repos(&nodes, &ex, &[]);
    assert_eq!(kept.len(), 1);
    assert_eq!(kept[0].name, "live");
    assert_eq!(kept[0].pushed_at, Some(MARCH_5));
    assert_eq!(listed_repos(&nodes, &[RepoExclude::Archived, RepoExclude::Nothing], &[]).len(), 3);
    assert!(!keeps_repo(&nodes[0], &[], &[Visibility::Private]));
    assert!(keeps_repo(&nodes[1], &[], &[Visibility::Private, Visibility::Public]));
}

#[test]
fn listing_cache_keys_sort_their_tags() {
    assert_eq!(
        listing_cache_key("acme", &[RepoExclude::Forks, RepoExclude::Archived], &[]),
        "repos_acme_ex_archived_forks_vis_all"
    );
    assert_eq!(
        listing_cache_key("acme", &[RepoExclude::Mirror, RepoExclude::Nothing], &[Visibility::Public, Visibility::Internal]),
        "repos_acme_ex__vis_internal_public"
    );
}

#[test]
fn csv_records_spell_out_every_field() {
    let header = csv_header();
    assert_eq!(header.join(","), "repo,status,catalog_owner,codeowners_teams,admin_teams,catalog_team_exists,pushed_at,notes,suggested_owners");
    let mut r = repo("api", AlignmentStatus::Stale);
    r.catalog_owner = Some(s("team-gone"));
    r.catalog_team_exists = Some(false);
    r.codeowners_teams = vec![s("a"), s("b")];
    r.pushed_at = Some(MARCH_5);
    r.notes = vec![s("n1"), s("n2")];
    r.suggested_owners = Some(SuggestionResult {
        suggestions: vec![
            TeamSuggestion { team: s("x"), commits: 1, reviews: 0, members: vec![] },
            TeamSuggestion { team: s("y"), commits: 1, reviews: 0, members: vec![] },
        ],
        unresolved: vec![],
        lookback_days: 90,
    });
    let rec = csv_record(&r);
    assert_eq!(
        rec,
        vec![
            s("api"),
            s("stale"),
            s("team-gone"),
            s("a, b"),
            s(""),
            s("false"),
            s("2024-03-05T00:00:00+00:00"),
            s("n1; n2"),
            s("x; y"),
        ]
    );
    let plain = csv_record(&repo("web", AlignmentStatus::Missing));
    assert_eq!(plain[2], "");
    assert_eq!(plain[5], "");
    assert_eq!(plain[6], "");
    assert_eq!(plain[8], "");
}

#[test]
fn tally_lists_present_statuses_with_their_share() {
    let repos = vec![
        repo("a", AlignmentStatus::Aligned),
        repo("b", AlignmentStatus::Aligned),
        repo("c", AlignmentStatus::Aligned),
        repo("d", AlignmentStatus::Stale),
    ];
    let summary = AuditSummary::from_repos(repos);
    assert_eq!(
        tally_footer(&summary, &[75, 0, 0, 0, 0, 25, 0]),
        "3 aligned (75%) \u{b7} 1 stale (25%)"
    );
    let empty = AuditSummary::from_repos(vec![]);
    assert_eq!(tally_footer(&empty, &[0, 0, 0, 0, 0, 0, 0]), "");
}

#[test]
fn sort_orders_of_the_org_table() {
    let mut a = repo("b-svc", AlignmentStatus::Aligned);
    a.pushed_at = Some(MARCH_5);
    let b = repo("A-svc", AlignmentStatus::Aligned);
    let mut c = repo("c-svc", AlignmentStatus::Aligned);
    c.pushed_at = Some(MARCH_5 - 100);
    let rows = [a, b, c];
    assert_eq!(org_table_order(&rows, SortOrder::Stale), vec![1, 2, 0]);
    assert_eq!(org_table_order(&rows, SortOrder::Active), vec![0, 2, 1]);
    assert_eq!(org_table_order(&rows, SortOrder::Name), vec![1, 0, 2]);
    assert_eq!(sort_columns_for(SortOrder::Stale), vec![s("last-push")]);
    assert_eq!(sort_columns_for(SortOrder::Active), vec![s("last-push")]);
    assert_eq!(sort_columns_for(SortOrder::Name), vec![s("repo")]);
}

#[test]
fn source_cache_keys_name_each_source() {
    let (co, cat, admin) = source_cache_keys("acme", "api");
    assert_eq!(co, "content_acme_api_codeowners_v2");
    assert_eq!(cat, "content_acme_api_catalog");
    assert_eq!(admin, "admin_teams_acme_api");
}

#[test]
fn listing_reads_push_times() {
    let mut n = node("a", false, false, "PUBLIC");
    n.pushed_at = Some(s("2024-03-05T14:07:00Z"));
    let mut m = node("b", false, false, "PUBLIC");
    m.pushed_at = Some(s("not a time"));
    let mut k = node("c", false, false, "PUBLIC");
    k.pushed_at = None;
    let kept = listed_repos(&[n, m, k], &[], &[]);
    assert_eq!(kept[0].pushed_at, Some(MARCH_5 + 14 * 3600 + 7 * 60));
    assert_eq!(kept[1].pushed_at, None);
    assert_eq!(kept[2].pushed_at, None);
}

#[test]
fn teams_without_activity_are_not_ranked() {
    let teams = vec![(s("quiet"), vec![s("alice")]), (s("busy"), vec![s("bob")])];
    let commits = vec![(s("alice"), 0), (s("bob"), 2)];
    let reviews = vec![(s("carol"), 1)];
    let r = suggest_owners(&teams, &commits, &reviews, 90, 20, &[]).unwrap();
    assert_eq!(r.suggestions.len(), 1);
    assert_eq!(r.suggestions[0].team, "busy");
    assert_eq!(r.suggestions[0].members, vec![s("bob")]);
    assert_eq!(r.unresolved, vec![s("carol")]);
}
