use ownrs::audit::{eq_ignore_ascii_case, exit_code, matches_team_filter, should_suggest};
use ownrs::cache::file_cache::FileCache;
use ownrs::cli::{Cli, Command, OutputFormat, SortOrder, StatusFilter, SuggestMode};
use ownrs::config::{parse_remote_url, parse_repo_arg, Config, ConfigError, Scope};
use ownrs::reconcile::alignment::reconcile;
use ownrs::reconcile::types::AlignmentStatus;
use ownrs::sources::catalog::{owner_from_spec, strip_prefix};

fn s(x: &str) -> String {
    x.to_string()
}

#[test]
fn owner_prefixes_are_stripped() {
    assert_eq!(strip_prefix("group:platform-team"), "platform-team");
    assert_eq!(strip_prefix("platform-team"), "platform-team");
    assert_eq!(strip_prefix("user:johndoe"), "johndoe");
    assert_eq!(strip_prefix("group:user:x"), "user:x");
    assert_eq!(strip_prefix("group"), "group");
    assert_eq!(strip_prefix(""), "");
}

#[test]
fn spec_owner_becomes_catalog_owner() {
    assert_eq!(owner_from_spec(Some(s("group:my-team"))), Some(s("my-team")));
    assert_eq!(owner_from_spec(None), None);
}

#[test]
fn repo_argument_is_split_at_first_slash() {
    assert_eq!(parse_repo_arg("acme/widgets"), Some((s("acme"), s("widgets"))));
    assert_eq!(parse_repo_arg("acme/a/b"), Some((s("acme"), s("a/b"))));
    assert_eq!(parse_repo_arg("widgets"), None);
}

#[test]
fn remote_urls_are_parsed() {
    assert_eq!(parse_remote_url("git@github.com:acme/widgets.git\n"), Some((s("acme"), s("widgets"))));
    assert_eq!(parse_remote_url("https://github.com/acme/widgets.git"), Some((s("acme"), s("widgets"))));
    assert_eq!(parse_remote_url("http://github.com/acme/widgets"), Some((s("acme"), s("widgets"))));
    assert_eq!(parse_remote_url("https://gitlab.com/acme/widgets"), None);
    assert_eq!(parse_remote_url("git@github.com:widgets"), None);
}

fn cli(command: Command, token: Option<String>) -> Cli {
    Cli {
        command,
        refresh: false,
        cache_dir: Some(s("/tmp/c")),
        cache_ttl: 86400,
        token,
        lookback_days: 90,
        max_team_size: 20,
        exclude_team: vec![],
    }
}

fn repo_cmd(repo: Option<String>) -> Command {
    Command::Repo {
        repo,
        status: vec![StatusFilter::Stale],
        format: OutputFormat::Json,
        strict: true,
        suggest: vec![SuggestMode::Partial],
    }
}

#[test]
fn config_for_a_repo_from_the_remote() {
    let c = Config::from_cli(cli(repo_cmd(None), Some(s("tok"))), None, None, Some(s("git@github.com:acme/w.git\n")));
    match c {
        Ok(c) => {
            assert_eq!(c.token, "tok");
            assert_eq!(c.cache_dir, "/tmp/c");
            match c.scope {
                Scope::Repo { org, repo, strict, .. } => {
                    assert_eq!(org, "acme");
                    assert_eq!(repo, "w");
                    assert!(strict);
                }
                Scope::Org { .. } => panic!("expected a repo scope"),
            }
        }
        Err(e) => panic!("unexpected error: {}", e.message()),
    }
}

#[test]
fn config_errors() {
    let e = Config::from_cli(cli(repo_cmd(None), None), Some(s("  \n")), None, None).err().unwrap();
    assert_eq!(e.message(), "GitHub token required. Run `gh auth login` or set GITHUB_TOKEN");
    let e = Config::from_cli(cli(repo_cmd(Some(s("widgets"))), Some(s("t"))), None, None, None).err().unwrap();
    assert_eq!(e.message(), "Repo must be in org/repo format, got: widgets");
    let e = Config::from_cli(cli(repo_cmd(None), Some(s("t"))), None, None, None).err().unwrap();
    assert!(matches!(e, ConfigError::NoRemote));
    let e = Config::from_cli(cli(repo_cmd(None), Some(s("t"))), None, None, Some(s("https://example.com/x/y\n"))).err().unwrap();
    assert_eq!(e.message(), "Could not parse org/repo from git remote: https://example.com/x/y");
    let mut no_dir = cli(repo_cmd(None), Some(s("t")));
    no_dir.cache_dir = None;
    let e = Config::from_cli(no_dir, None, None, None).err().unwrap();
    assert!(matches!(e, ConfigError::NoCacheDir));
}

#[test]
fn config_for_an_org_uses_gh_token_and_default_dir() {
    let cmd = Command::Org {
        org: s("acme"),
        limit: Some(5),
        sort: SortOrder::Name,
        team: vec![s("core")],
        status: vec![],
        format: OutputFormat::Table,
        detail: true,
        strict: false,
    };
    let mut c = cli(cmd, None);
    c.cache_dir = None;
    let cfg = Config::from_cli(c, Some(s("gho_abc\n")), Some(s("/home/u/.cache/ownrs")), None).ok().unwrap();
    assert_eq!(cfg.token, "gho_abc");
    assert_eq!(cfg.cache_dir, "/home/u/.cache/ownrs");
    match cfg.scope {
        Scope::Org { org, limit, team_filter, detail, .. } => {
            assert_eq!(org, "acme");
            assert_eq!(limit, Some(5));
            assert_eq!(team_filter, vec!["core"]);
            assert!(detail);
        }
        Scope::Repo { .. } => panic!("expected an org scope"),
    }
}

#[test]
fn team_filter_checks_all_sources_ignoring_case() {
    let valid = vec![s("Core"), s("ops"), s("docs")];
    let r = reconcile("r", None, Some("Core"), &[s("docs")], &[s("ops")], &valid, false);
    assert!(matches_team_filter(&r, &[]));
    assert!(matches_team_filter(&r, &[s("core")]));
    assert!(matches_team_filter(&r, &[s("OPS")]));
    assert!(matches_team_filter(&r, &[s("x"), s("Docs")]));
    assert!(!matches_team_filter(&r, &[s("cor")]));
    assert!(eq_ignore_ascii_case("Team-A", "tEAM-a"));
    assert!(!eq_ignore_ascii_case("Team-A", "Team-B"));
}

#[test]
fn suggestions_trigger_on_missing_and_stale_by_default() {
    assert!(should_suggest(AlignmentStatus::Missing, &[]));
    assert!(should_suggest(AlignmentStatus::Stale, &[]));
    assert!(!should_suggest(AlignmentStatus::Mismatched, &[]));
    assert!(should_suggest(AlignmentStatus::Mismatched, &[SuggestMode::Mismatched]));
    assert!(!should_suggest(AlignmentStatus::Stale, &[SuggestMode::Missing]));
    assert!(should_suggest(AlignmentStatus::AdminOnly, &[SuggestMode::Partial]));
    assert!(should_suggest(AlignmentStatus::CatalogOnly, &[SuggestMode::Missing, SuggestMode::Partial]));
}

#[test]
fn exit_codes() {
    assert_eq!(exit_code(false, 10), 0);
    assert_eq!(exit_code(true, 0), 0);
    assert_eq!(exit_code(true, 2), 1);
}

#[test]
fn cache_file_names_and_freshness() {
    assert_eq!(FileCache::file_name("teams_acme"), "teams_acme.json");
    assert_eq!(FileCache::file_name("a/b/c"), "a__b__c.json");
    let c = FileCache::with_dir(s("/tmp/x"), 10);
    assert!(c.is_fresh(10_000_000_000));
    assert!(!c.is_fresh(10_000_000_001));
    assert_eq!(c.dir, "/tmp/x");
}
