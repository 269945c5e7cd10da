use ownrs::cli::StatusFilter;
use ownrs::reconcile::alignment::{normalize_team, reconcile};
use ownrs::reconcile::types::{AlignmentStatus, AuditSummary, RepoOwnership};

fn teams(names: &[&str]) -> Vec<String> {
    names.iter().map(|s| s.to_string()).collect()
}

fn sv(names: &[&str]) -> Vec<String> {
    names.iter().map(|s| s.to_string()).collect()
}

#[test]
fn all_three_agree() {
    let result = reconcile("repo", None, Some("team-a"), &sv(&["team-a"]), &sv(&["team-a"]), &teams(&["team-a"]), false);
    assert_eq!(result.alignment, AlignmentStatus::Aligned);
}

#[test]
fn two_of_three_overlap() {
    let result = reconcile("repo", None, Some("team-a"), &sv(&["team-a", "team-b"]), &sv(&["team-a", "team-c"]), &teams(&["team-a", "team-b", "team-c"]), false);
    assert_eq!(result.alignment, AlignmentStatus::Aligned);
}

#[test]
fn no_overlap_across_three() {
    let result = reconcile("repo", None, Some("team-a"), &sv(&["team-b"]), &sv(&["team-c"]), &teams(&["team-a", "team-b", "team-c"]), false);
    assert_eq!(result.alignment, AlignmentStatus::Mismatched);
}

#[test]
fn two_sources_catalog_codeowners_aligned() {
    let result = reconcile("repo", None, Some("team-a"), &sv(&["team-a"]), &[], &teams(&["team-a"]), false);
    assert_eq!(result.alignment, AlignmentStatus::Aligned);
}

#[test]
fn two_sources_catalog_codeowners_mismatched() {
    let result = reconcile("repo", None, Some("team-a"), &sv(&["team-b"]), &[], &teams(&["team-a", "team-b"]), false);
    assert_eq!(result.alignment, AlignmentStatus::Mismatched);
}

#[test]
fn catalog_only() {
    let result = reconcile("repo", None, Some("team-a"), &[], &[], &teams(&["team-a"]), false);
    assert_eq!(result.alignment, AlignmentStatus::CatalogOnly);
}

#[test]
fn codeowners_only() {
    let result = reconcile("repo", None, None, &sv(&["team-a"]), &[], &teams(&["team-a"]), false);
    assert_eq!(result.alignment, AlignmentStatus::CodeownersOnly);
}

#[test]
fn admin_only() {
    let result = reconcile("repo", None, None, &[], &sv(&["team-a"]), &teams(&["team-a"]), false);
    assert_eq!(result.alignment, AlignmentStatus::AdminOnly);
}

#[test]
fn missing_when_none() {
    let result = reconcile("repo", None, None, &[], &[], &teams(&["team-a"]), false);
    assert_eq!(result.alignment, AlignmentStatus::Missing);
}

#[test]
fn stale_catalog_team_gone() {
    let result = reconcile("repo", None, Some("team-gone"), &sv(&["team-a"]), &sv(&["team-a"]), &teams(&["team-a"]), false);
    assert_eq!(result.alignment, AlignmentStatus::Stale);
}

#[test]
fn stale_codeowners_team_gone() {
    let result = reconcile("repo", None, Some("team-a"), &sv(&["team-gone"]), &[], &teams(&["team-a"]), false);
    assert_eq!(result.alignment, AlignmentStatus::Stale);
}

#[test]
fn stale_admin_team_gone() {
    let result = reconcile("repo", None, None, &[], &sv(&["team-gone"]), &teams(&["team-a"]), false);
    assert_eq!(result.alignment, AlignmentStatus::Stale);
}

#[test]
fn case_insensitive_alignment() {
    let result = reconcile("repo", None, Some("Team-A"), &sv(&["team-a"]), &[], &teams(&["team-a", "Team-A"]), false);
    assert_eq!(result.alignment, AlignmentStatus::Aligned);
}

#[test]
fn strict_all_identical() {
    let result = reconcile("repo", None, Some("team-a"), &sv(&["team-a"]), &sv(&["team-a"]), &teams(&["team-a"]), true);
    assert_eq!(result.alignment, AlignmentStatus::Aligned);
}

#[test]
fn strict_superset_mismatched() {
    let result = reconcile("repo", None, Some("team-a"), &sv(&["team-a", "team-b"]), &sv(&["team-a"]), &teams(&["team-a", "team-b"]), true);
    assert_eq!(result.alignment, AlignmentStatus::Mismatched);
}

#[test]
fn strict_single_source() {
    let result = reconcile("repo", None, Some("team-a"), &[], &[], &teams(&["team-a"]), true);
    assert_eq!(result.alignment, AlignmentStatus::CatalogOnly);
}

// --- further cases ---

#[test]
fn stale_notes_name_every_unknown_team_in_order() {
    let result = reconcile("repo", Some(1_700_000_000), Some("gone-1"), &sv(&["team-a", "gone-2"]), &sv(&["gone-3"]), &teams(&["team-a"]), false);
    assert_eq!(result.alignment, AlignmentStatus::Stale);
    assert_eq!(
        result.notes,
        vec![
            "catalog-info.yaml references non-existent team: gone-1",
            "CODEOWNERS references non-existent team: gone-2",
            "Admin team does not exist: gone-3",
        ]
    );
    assert_eq!(result.catalog_team_exists, Some(false));
    assert_eq!(
        result.codeowners_teams_exist,
        vec![("team-a".to_string(), true), ("gone-2".to_string(), false)]
    );
    assert_eq!(result.pushed_at, Some(1_700_000_000));
    assert_eq!(result.repo_name, "repo");
}

#[test]
fn notes_for_each_single_source_and_missing() {
    let t = teams(&["team-a"]);
    assert_eq!(reconcile("r", None, None, &[], &[], &t, false).notes, vec!["No ownership metadata found"]);
    assert_eq!(reconcile("r", None, Some("team-a"), &[], &[], &t, false).notes, vec!["Only catalog-info.yaml has ownership"]);
    assert_eq!(reconcile("r", None, None, &sv(&["team-a"]), &[], &t, false).notes, vec!["Only CODEOWNERS has ownership"]);
    assert_eq!(reconcile("r", None, None, &[], &sv(&["team-a"]), &t, false).notes, vec!["Only admin team membership has ownership"]);
}

#[test]
fn mismatch_notes_differ_by_mode() {
    let t = teams(&["team-a", "team-b"]);
    let loose = reconcile("r", None, Some("team-a"), &sv(&["team-b"]), &[], &t, false);
    assert_eq!(loose.notes, vec!["No common team across all ownership sources"]);
    let strict = reconcile("r", None, Some("team-a"), &sv(&["team-a", "team-b"]), &[], &t, true);
    assert_eq!(strict.notes, vec!["Sources have different team sets (strict mode)"]);
    let aligned = reconcile("r", None, Some("team-a"), &sv(&["team-a"]), &[], &t, true);
    assert!(aligned.notes.is_empty());
}

#[test]
fn strict_ignores_order_and_repeats() {
    let t = teams(&["team-a", "team-b"]);
    let r = reconcile("r", None, None, &sv(&["team-b", "team-a", "team-b"]), &sv(&["team-a", "team-b"]), &t, true);
    assert_eq!(r.alignment, AlignmentStatus::Aligned);
}

#[test]
fn normalization_lowercases_and_trims() {
    assert_eq!(normalize_team("  Team-A \t"), "team-a");
    assert_eq!(normalize_team("PLATFORM"), "platform");
}

#[test]
fn status_filter_matching() {
    assert!(AlignmentStatus::Stale.matches_filter(&[]));
    assert!(AlignmentStatus::Stale.matches_filter(&[StatusFilter::Missing, StatusFilter::Stale]));
    assert!(!AlignmentStatus::Aligned.matches_filter(&[StatusFilter::Missing, StatusFilter::Stale]));
    assert!(AlignmentStatus::AdminOnly.matches_filter(&[StatusFilter::AdminOnly]));
}

#[test]
fn status_labels() {
    assert_eq!(AlignmentStatus::Aligned.label(), "aligned");
    assert_eq!(AlignmentStatus::CatalogOnly.label(), "catalog-only");
    assert_eq!(AlignmentStatus::CodeownersOnly.label(), "codeowners-only");
    assert_eq!(AlignmentStatus::AdminOnly.label(), "admin-only");
    assert_eq!(AlignmentStatus::Missing.label(), "missing");
}

fn repo_with(status: AlignmentStatus) -> RepoOwnership {
    let mut r = reconcile("r", None, None, &[], &[], &[], false);
    r.alignment = status;
    r
}

#[test]
fn summary_counts_each_status() {
    let repos = vec![
        repo_with(AlignmentStatus::Aligned),
        repo_with(AlignmentStatus::Stale),
        repo_with(AlignmentStatus::Stale),
        repo_with(AlignmentStatus::AdminOnly),
        repo_with(AlignmentStatus::Missing),
    ];
    let s = AuditSummary::from_repos(repos);
    assert_eq!(s.total, 5);
    assert_eq!(s.aligned, 1);
    assert_eq!(s.stale, 2);
    assert_eq!(s.admin_only, 1);
    assert_eq!(s.missing, 1);
    assert_eq!(s.mismatched + s.catalog_only + s.codeowners_only, 0);
    assert_eq!(s.repos.len(), 5);
}
