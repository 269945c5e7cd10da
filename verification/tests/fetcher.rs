use ownrs::sources::fetcher::{admin_team_slugs, resolve_codeowners, CodeownersSearch, SearchAction};

const PATHS: &[&str] = &["CODEOWNERS", ".github/CODEOWNERS", "docs/CODEOWNERS"];

/// Run the search over a fixed path -> content map, as the fetcher does,
/// recording the paths looked up in order.
fn search(files: &[(&str, &str)]) -> (Option<String>, Vec<String>) {
    let mut seen = Vec::new();
    let mut s = CodeownersSearch::new(PATHS.len());
    let mut action = s.next_action();
    loop {
        match action {
            SearchAction::Finish(found) => return (found, seen),
            SearchAction::Fetch(i) => {
                let path = PATHS[i];
                seen.push(path.to_string());
                let hit = files
                    .iter()
                    .find(|(p, _)| *p == path)
                    .map(|(_, c)| c.to_string());
                let (next, next_action) = s.record(hit);
                s = next;
                action = next_action;
            }
        }
    }
}

#[test]
fn prefers_root_and_stops_early() {
    let files = [
        ("CODEOWNERS", "* @acme/team-a\n"),
        (".github/CODEOWNERS", "* @acme/team-b\n"),
    ];
    let (got, seen) = search(&files);

    assert_eq!(got.as_deref(), Some("* @acme/team-a\n"));
    assert_eq!(seen.as_slice(), &["CODEOWNERS".to_string()]);
}

#[test]
fn keeps_a_root_file_that_names_only_users() {
    // Valid CODEOWNERS with no teams — must not be mistaken for unusable.
    let files = [
        ("CODEOWNERS", "* @alice\n"),
        (".github/CODEOWNERS", "* @acme/team-b\n"),
    ];
    let (got, seen) = search(&files);

    assert_eq!(got.as_deref(), Some("* @alice\n"));
    assert_eq!(seen.as_slice(), &["CODEOWNERS".to_string()]);
}

#[test]
fn falls_through_past_an_empty_root_file() {
    let files = [
        ("CODEOWNERS", ""),
        (".github/CODEOWNERS", "* @acme/team-b\n"),
    ];
    let (got, _seen) = search(&files);

    assert_eq!(got.as_deref(), Some("* @acme/team-b\n"));
}

#[test]
fn falls_through_when_root_has_no_usable_rule() {
    let files = [
        ("CODEOWNERS", "@acme/team-a @acme/team-b\n"),
        (".github/CODEOWNERS", "* @acme/team-a\n"),
    ];
    let (got, seen) = search(&files);

    assert_eq!(got.as_deref(), Some("* @acme/team-a\n"));
    assert_eq!(
        seen.as_slice(),
        &["CODEOWNERS".to_string(), ".github/CODEOWNERS".to_string()]
    );
}

#[test]
fn skips_absent_paths() {
    let files = [("docs/CODEOWNERS", "* @acme/team-c\n")];
    let (got, seen) = search(&files);

    assert_eq!(got.as_deref(), Some("* @acme/team-c\n"));
    assert_eq!(seen.len(), 3);
}

#[test]
fn keeps_first_found_when_nothing_is_usable() {
    let files = [
        ("CODEOWNERS", "@acme/team-a\n"),
        (".github/CODEOWNERS", "# only a comment\n"),
    ];
    let (got, _seen) = search(&files);

    assert_eq!(got.as_deref(), Some("@acme/team-a\n"));
}

#[test]
fn none_when_no_file_exists() {
    let (got, _seen) = search(&[]);

    assert_eq!(got, None);
}

// --- further cases ---

#[test]
fn resolving_known_contents_matches_the_search() {
    let fetched = vec![None, Some("# x\n".to_string()), Some("* @acme/t\n".to_string())];
    assert_eq!(resolve_codeowners(&fetched), (Some("* @acme/t\n".to_string()), 3));
    let fetched = vec![Some("* @a/b\n".to_string()), Some("* @a/c\n".to_string())];
    assert_eq!(resolve_codeowners(&fetched), (Some("* @a/b\n".to_string()), 1));
    let fetched = vec![Some("".to_string()), Some("# y\n".to_string())];
    assert_eq!(resolve_codeowners(&fetched), (Some("".to_string()), 2));
    assert_eq!(resolve_codeowners(&[None, None]), (None, 2));
}

#[test]
fn only_admin_permission_counts() {
    let teams = vec![
        ("core".to_string(), "admin".to_string()),
        ("docs".to_string(), "push".to_string()),
        ("ops".to_string(), "admin".to_string()),
        ("ro".to_string(), "pull".to_string()),
    ];
    assert_eq!(admin_team_slugs(&teams), vec!["core", "ops"]);
}
