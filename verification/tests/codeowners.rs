use ownrs::sources::codeowners::{
    extract_teams, has_usable_rule, parse_wildcard, CodeownersState,
};

#[test]
fn simple_wildcard() {
    let content = "* @acme/platform-team\n";
    assert_eq!(extract_teams(content), vec!["platform-team"]);
}

#[test]
fn with_comments() {
    let content = "# Top-level owners\n* @acme/core-team\n/docs @acme/docs-team\n";
    assert_eq!(extract_teams(content), vec!["core-team"]);
}

#[test]
fn multiple_teams_on_wildcard() {
    let content = "* @acme/team-a @acme/team-b\n";
    assert_eq!(extract_teams(content), vec!["team-a", "team-b"]);
}

#[test]
fn mixed_users_and_teams() {
    let content = "* @acme/team-a @alice @acme/team-b\n";
    assert_eq!(extract_teams(content), vec!["team-a", "team-b"]);
}

#[test]
fn duplicate_teams_deduplicated() {
    let content = "* @acme/team-a @acme/team-a @acme/team-b\n";
    assert_eq!(extract_teams(content), vec!["team-a", "team-b"]);
}

#[test]
fn no_wildcard_rule() {
    let content = "/src @acme/backend\n/web @acme/frontend\n";
    assert_eq!(extract_teams(content), Vec::<String>::new());
}

#[test]
fn username_not_team() {
    let content = "* @johndoe\n";
    assert_eq!(extract_teams(content), Vec::<String>::new());
}

#[test]
fn empty_file() {
    assert_eq!(extract_teams(""), Vec::<String>::new());
}

#[test]
fn only_comments() {
    assert_eq!(
        extract_teams("# just comments\n# nothing else\n"),
        Vec::<String>::new()
    );
}

#[test]
fn wildcard_splits_teams_from_users() {
    let owners = parse_wildcard("* @acme/team-a @alice @acme/team-b @bob\n").unwrap();
    assert_eq!(owners.teams, vec!["team-a", "team-b"]);
    assert_eq!(owners.users, vec!["alice", "bob"]);
}

#[test]
fn usable_when_rule_names_only_users() {
    // A valid rule that names users only: it has no teams.
    let content = "* @alice\n";
    assert!(has_usable_rule(content));
    assert_eq!(extract_teams(content), Vec::<String>::new());
}

#[test]
fn unusable_when_no_wildcard_rule() {
    assert_eq!(parse_wildcard("@acme/team-a @acme/team-b\n"), None);
    assert!(!has_usable_rule("@acme/team-a @acme/team-b\n"));
}

#[test]
fn unusable_when_file_is_empty_or_comments_only() {
    assert_eq!(parse_wildcard(""), None);
    assert!(!has_usable_rule(""));
    assert!(!has_usable_rule("# managed by terraform\n"));
}

#[test]
fn unusable_when_wildcard_names_nobody() {
    let owners = parse_wildcard("* \n").unwrap();
    assert!(owners.is_empty());
    assert!(!has_usable_rule("* \n"));
}

#[test]
fn state_absent_when_no_file() {
    assert_eq!(CodeownersState::from_content(None), CodeownersState::Absent);
}

#[test]
fn state_unusable_for_a_file_that_assigns_nobody() {
    assert_eq!(
        CodeownersState::from_content(Some("@acme/team-a\n")),
        CodeownersState::Unusable
    );
    assert_eq!(
        CodeownersState::from_content(Some("")),
        CodeownersState::Unusable
    );
}

#[test]
fn state_owned_with_no_teams_for_a_user_only_rule() {
    let state = CodeownersState::from_content(Some("* @alice\n"));
    assert_eq!(state, CodeownersState::Owned { teams: vec![] });
    assert!(state.teams().is_empty());
}

#[test]
fn state_owned_carries_teams() {
    let state = CodeownersState::from_content(Some("* @acme/team-a\n"));
    assert_eq!(state.teams(), ["team-a".to_string()]);
}

#[test]
fn path_scoped_rules_do_not_make_a_file_usable() {
    // GitHub honors these, but they are not a top-level default owner.
    assert!(!has_usable_rule("/src @acme/backend\n"));
}

// --- further cases ---

#[test]
fn only_the_first_wildcard_rule_counts() {
    let content = "* @acme/first\n* @acme/second\n";
    assert_eq!(extract_teams(content), vec!["first"]);
}

#[test]
fn indented_comment_and_blank_lines_are_skipped() {
    let content = "\n   # note\n\t\n  *   @acme/team-x\t@carol  \n";
    let owners = parse_wildcard(content).unwrap();
    assert_eq!(owners.teams, vec!["team-x"]);
    assert_eq!(owners.users, vec!["carol"]);
}

#[test]
fn windows_line_endings_are_read() {
    let content = "# owners\r\n* @acme/team-a @dave\r\n";
    let owners = parse_wildcard(content).unwrap();
    assert_eq!(owners.teams, vec!["team-a"]);
    assert_eq!(owners.users, vec!["dave"]);
}

#[test]
fn star_glued_to_a_word_is_not_the_wildcard() {
    assert_eq!(parse_wildcard("*.rs @acme/rust\n"), None);
}

#[test]
fn team_keeps_everything_after_the_first_slash() {
    assert_eq!(extract_teams("* @acme/platform/sub\n"), vec!["platform/sub"]);
}

#[test]
fn repeated_user_counts_once() {
    let owners = parse_wildcard("* @alice @alice @acme/t\n").unwrap();
    assert_eq!(owners.users, vec!["alice"]);
    assert_eq!(owners.teams, vec!["t"]);
}

#[test]
fn tokens_without_at_are_ignored() {
    let owners = parse_wildcard("* someone@example.com @acme/t\n").unwrap();
    assert_eq!(owners.teams, vec!["t"]);
    assert!(owners.users.is_empty());
}

#[test]
fn unusable_state_has_no_teams() {
    assert!(CodeownersState::from_content(Some("# x\n")).teams().is_empty());
    assert!(CodeownersState::Absent.teams().is_empty());
}

#[test]
fn teams_shared_by_two_orgs_are_listed_once() {
    let teams = extract_teams("* @acme/platform @other/platform @acme/infra @acme/platform\n");
    assert_eq!(teams, vec!["platform".to_string(), "infra".to_string()]);
    assert_eq!(extract_teams("* @a/x @b/x\n"), vec!["x".to_string()]);
    let o = parse_wildcard("* @a/x @alice @b/x\n").unwrap();
    assert_eq!(o.teams, vec!["x".to_string(), "x".to_string()]);
    assert_eq!(o.users, vec!["alice".to_string()]);
}
