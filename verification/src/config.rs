//! Turning the command line into a run configuration.
use vstd::prelude::*;

use crate::cli::{Cli, Command, OutputFormat, SortOrder, StatusFilter, SuggestMode};
use crate::text::{
    chars_of, find_char, find_in, range_has_prefix, range_has_suffix, string_from_range, trim,
    trim_string,
};

verus! {

/// What a run audits, with its filters and output options.
pub enum Scope {
    Org {
        org: String,
        limit: Option<usize>,
        sort: SortOrder,
        team_filter: Vec<String>,
        status_filter: Vec<StatusFilter>,
        format: OutputFormat,
        detail: bool,
        strict: bool,
    },
    Repo {
        org: String,
        repo: String,
        status_filter: Vec<StatusFilter>,
        format: OutputFormat,
        strict: bool,
        suggest: Vec<SuggestMode>,
    },
}

/// A run configuration.
pub struct Config {
    pub scope: Scope,
    pub token: String,
    pub refresh: bool,
    pub cache_dir: String,
    pub cache_ttl: u64,
    pub lookback_days: u64,
    pub max_team_size: usize,
    pub exclude_team: Vec<String>,
}

/// Why no configuration could be made.
#[derive(Debug)]
pub enum ConfigError {
    /// No `--token`, and `gh auth token` gave none.
    TokenRequired,
    /// No `--cache-dir`, and no default cache directory is known.
    NoCacheDir,
    /// The repo argument is not `org/repo`.
    BadRepoArg { slug: String },
    /// No repo argument, and `git remote get-url origin` gave nothing.
    NoRemote,
    /// The origin remote is not a GitHub `org/repo` URL.
    BadRemote { url: String },
}

impl View for ConfigError {
    /// The error's kind, in declaration order, with its text (empty when it has none).
    type V = (nat, Seq<char>);

    open spec fn view(&self) -> (nat, Seq<char>) {
        match self {
            ConfigError::TokenRequired => (0, seq![]),
            ConfigError::NoCacheDir => (1, seq![]),
            ConfigError::BadRepoArg { slug } => (2, slug@),
            ConfigError::NoRemote => (3, seq![]),
            ConfigError::BadRemote { url } => (4, url@),
        }
    }
}

pub open spec fn opt_view(o: Option<String>) -> Option<Seq<char>> {
    match o {
        Some(s) => Some(s@),
        None => None,
    }
}

/// `org/repo` split at its first `/`; none when there is no `/`.
pub open spec fn split_slug(s: Seq<char>) -> Option<(Seq<char>, Seq<char>)> {
    let k = find_char(s, '/');
    if k < s.len() {
        Some((s.take(k), s.skip(k + 1)))
    } else {
        None
    }
}

/// `p` without a trailing `.git`.
pub open spec fn without_git_suffix(p: Seq<char>) -> Seq<char> {
    if ".git"@.is_suffix_of(p) {
        p.take(p.len() - ".git"@.len())
    } else {
        p
    }
}

/// The `org/repo` of a GitHub remote URL, over SSH (`git@github.com:org/repo.git`)
/// or HTTP(S) (`https://github.com/org/repo.git`).
pub open spec fn remote_slug(url: Seq<char>) -> Option<(Seq<char>, Seq<char>)> {
    let u = trim(url);
    let ssh = if "git@github.com:"@.is_prefix_of(u) {
        split_slug(without_git_suffix(u.skip("git@github.com:"@.len() as int)))
    } else {
        None
    };
    if ssh is Some {
        ssh
    } else if "https://github.com/"@.is_prefix_of(u) {
        split_slug(without_git_suffix(u.skip("https://github.com/"@.len() as int)))
    } else if "http://github.com/"@.is_prefix_of(u) {
        split_slug(without_git_suffix(u.skip("http://github.com/"@.len() as int)))
    } else {
        None
    }
}

/// The token to use: `--token`, or else the trimmed output of `gh auth token` when not empty.
pub open spec fn chosen_token(cli_token: Option<String>, gh_output: Option<String>) -> Option<Seq<char>> {
    match cli_token {
        Some(t) => Some(t@),
        None => match gh_output {
            Some(o) => if trim(o@).len() > 0 {
                Some(trim(o@))
            } else {
                None
            },
            None => None,
        },
    }
}

/// The cache directory: `--cache-dir`, or else the default one.
pub open spec fn chosen_dir(cli_dir: Option<String>, default_dir: Option<String>) -> Option<Seq<char>> {
    match cli_dir {
        Some(d) => Some(d@),
        None => opt_view(default_dir),
    }
}

/// Why the repo argument (or, without one, the origin remote URL) gives no
/// `org/repo`; none when it does.
pub open spec fn repo_failure(repo: Option<String>, remote: Option<String>) -> Option<(nat, Seq<char>)> {
    match repo {
        Some(slug) => if split_slug(slug@) is Some {
            None
        } else {
            Some((2, slug@))
        },
        None => match remote {
            Some(url) => if remote_slug(url@) is Some {
                None
            } else {
                Some((4, trim(url@)))
            },
            None => Some((3, seq![])),
        },
    }
}

/// The `org/repo` that the repo argument, or else the origin remote URL, names.
pub open spec fn repo_target(repo: Option<String>, remote: Option<String>) -> Option<(Seq<char>, Seq<char>)> {
    match repo {
        Some(slug) => split_slug(slug@),
        None => match remote {
            Some(url) => remote_slug(url@),
            None => None,
        },
    }
}

/// Why no configuration can be made from these inputs; none when one can.
/// The token is looked at first, then the cache directory, then the repo.
pub open spec fn config_failure(
    cli: Cli,
    gh_output: Option<String>,
    default_dir: Option<String>,
    remote: Option<String>,
) -> Option<(nat, Seq<char>)> {
    if chosen_token(cli.token, gh_output) is None {
        Some((0, seq![]))
    } else if chosen_dir(cli.cache_dir, default_dir) is None {
        Some((1, seq![]))
    } else {
        match cli.command {
            Command::Org { .. } => None,
            Command::Repo { repo, .. } => repo_failure(repo, remote),
        }
    }
}

/// `scope` is what `command` asks for, the repo taken from the origin remote when not given.
pub open spec fn scope_of(scope: Scope, command: Command, remote: Option<String>) -> bool {
    match command {
        Command::Org { org, limit, sort, team, status, format, detail, strict } => match scope {
            Scope::Org {
                org: o,
                limit: l,
                sort: so,
                team_filter: t,
                status_filter: st,
                format: f,
                detail: d,
                strict: s,
            } => o@ == org@ && l == limit && so == sort && t@ == team@ && st@ == status@ && f == format
                && d == detail && s == strict,
            _ => false,
        },
        Command::Repo { repo, status, format, strict, suggest } => match scope {
            Scope::Repo { org: o, repo: r, status_filter: st, format: f, strict: s, suggest: sg } => {
                &&& repo_target(repo, remote) == Some((o@, r@))
                &&& st@ == status@
                &&& f == format
                &&& s == strict
                &&& sg@ == suggest@
            },
            _ => false,
        },
    }
}

impl ConfigError {
    /// The message shown for the error.
    pub fn message(&self) -> (m: String)
        ensures
            m@ == match self {
                ConfigError::TokenRequired => "GitHub token required. Run `gh auth login` or set GITHUB_TOKEN"@,
                ConfigError::NoCacheDir => "Could not determine cache directory"@,
                ConfigError::BadRepoArg { slug } => "Repo must be in org/repo format, got: "@ + slug@,
                ConfigError::NoRemote => "No repo specified and could not detect from git remote"@,
                ConfigError::BadRemote { url } => "Could not parse org/repo from git remote: "@ + url@,
            },
    {
        match self {
            ConfigError::TokenRequired => "GitHub token required. Run `gh auth login` or set GITHUB_TOKEN".to_owned(),
            ConfigError::NoCacheDir => "Could not determine cache directory".to_owned(),
            ConfigError::BadRepoArg { slug } => {
                let mut m = "Repo must be in org/repo format, got: ".to_owned();
                m.append(slug.as_str());
                m
            },
            ConfigError::NoRemote => "No repo specified and could not detect from git remote".to_owned(),
            ConfigError::BadRemote { url } => {
                let mut m = "Could not parse org/repo from git remote: ".to_owned();
                m.append(url.as_str());
                m
            },
        }
    }
}

/// Split `v[start..end]` at its first `/`.
fn split_range(v: &Vec<char>, start: usize, end: usize) -> (r: Option<(String, String)>)
    requires
        start <= end <= v.len(),
    ensures
        match split_slug(v@.subrange(start as int, end as int)) {
            Some(p) => r matches Some(q) && q.0@ == p.0 && q.1@ == p.1,
            None => r is None,
        },
{
    let ghost s = v@.subrange(start as int, end as int);
    let k = find_in(v, start, end, '/');
    if k < end {
        let org = string_from_range(v, start, k);
        let name = string_from_range(v, k + 1, end);
        assert(org@ =~= s.take(k - start));
        assert(name@ =~= s.skip(k - start + 1));
        Some((org, name))
    } else {
        None
    }
}

/// Split an `org/repo` argument at its first `/`.
pub fn parse_repo_arg(slug: &str) -> (r: Option<(String, String)>)
    ensures
        match split_slug(slug@) {
            Some(p) => r matches Some(q) && q.0@ == p.0 && q.1@ == p.1,
            None => r is None,
        },
{
    let v = chars_of(slug);
    assert(v@.subrange(0, v@.len() as int) =~= v@);
    split_range(&v, 0, v.len())
}

/// The `org/repo` after `prefix` in `v`, when `v` begins with it.
fn slug_after(v: &Vec<char>, prefix: &str) -> (r: (bool, Option<(String, String)>))
    ensures
        r.0 == prefix@.is_prefix_of(v@),
        match (if prefix@.is_prefix_of(v@) {
            split_slug(without_git_suffix(v@.skip(prefix@.len() as int)))
        } else {
            None
        }) {
            Some(p) => r.1 matches Some(q) && q.0@ == p.0 && q.1@ == p.1,
            None => r.1 is None,
        },
{
    let p = chars_of(prefix);
    assert(v@.subrange(0, v@.len() as int) =~= v@);
    if !range_has_prefix(v, 0, v.len(), &p) {
        return (false, None);
    }
    let start = p.len();
    let ghost rest = v@.skip(start as int);
    assert(v@.subrange(start as int, v@.len() as int) =~= rest);
    let git = chars_of(".git");
    let end = if range_has_suffix(v, start, v.len(), &git) {
        assert(rest.take(rest.len() - git@.len()) =~= v@.subrange(
            start as int,
            v@.len() - git@.len(),
        ));
        v.len() - git.len()
    } else {
        v.len()
    };
    assert(without_git_suffix(rest) =~= v@.subrange(start as int, end as int));
    (true, split_range(v, start, end))
}

/// The `org/repo` of a GitHub remote URL (trimmed first).
pub fn parse_remote_url(url: &str) -> (r: Option<(String, String)>)
    ensures
        match remote_slug(url@) {
            Some(p) => r matches Some(q) && q.0@ == p.0 && q.1@ == p.1,
            None => r is None,
        },
{
    let trimmed = trim_string(url);
    let v = chars_of(trimmed.as_str());
    let ssh = slug_after(&v, "git@github.com:");
    if ssh.1.is_some() {
        return ssh.1;
    }
    let https = slug_after(&v, "https://github.com/");
    if https.0 {
        return https.1;
    }
    slug_after(&v, "http://github.com/").1
}

impl Config {
    /// Build the run configuration from the command line. What the command
    /// line leaves out comes from the other inputs, each used only when
    /// needed: the output of `gh auth token` (when there is no `--token`),
    /// the default cache directory (when there is no `--cache-dir`) and the
    /// URL of the `origin` git remote (when `repo` names no repo); `None`
    /// where that source gave nothing.
    pub fn from_cli(
        cli: Cli,
        gh_token_output: Option<String>,
        default_cache_dir: Option<String>,
        git_remote_url: Option<String>,
    ) -> (r: Result<Config, ConfigError>)
        ensures
            match r {
                Ok(c) => {
                    &&& config_failure(cli, gh_token_output, default_cache_dir, git_remote_url) is None
                    &&& chosen_token(cli.token, gh_token_output) == Some(c.token@)
                    &&& chosen_dir(cli.cache_dir, default_cache_dir) == Some(c.cache_dir@)
                    &&& scope_of(c.scope, cli.command, git_remote_url)
                    &&& c.refresh == cli.refresh
                    &&& c.cache_ttl == cli.cache_ttl
                    &&& c.lookback_days == cli.lookback_days
                    &&& c.max_team_size == cli.max_team_size
                    &&& c.exclude_team@ == cli.exclude_team@
                },
                Err(e) => config_failure(cli, gh_token_output, default_cache_dir, git_remote_url)
                    == Some(e@),
            },
    {
        let ghost cli0 = cli;
        let token = match cli.token {
            Some(t) => t,
            None => match gh_token_output {
                Some(out) => {
                    let t = trim_string(out.as_str());
                    if t.as_str().is_empty() {
                        return Err(ConfigError::TokenRequired);
                    }
                    t
                },
                None => return Err(ConfigError::TokenRequired),
            },
        };
        let cache_dir = match cli.cache_dir {
            Some(d) => d,
            None => match default_cache_dir {
                Some(d) => d,
                None => return Err(ConfigError::NoCacheDir),
            },
        };
        let scope = match cli.command {
            Command::Org { org, limit, sort, team, status, format, detail, strict } => Scope::Org {
                org,
                limit,
                sort,
                team_filter: team,
                status_filter: status,
                format,
                detail,
                strict,
            },
            Command::Repo { repo, status, format, strict, suggest } => {
                let target = match repo {
                    Some(slug) => match parse_repo_arg(slug.as_str()) {
                        Some(p) => p,
                        None => return Err(ConfigError::BadRepoArg { slug }),
                    },
                    None => match git_remote_url {
                        Some(url) => match parse_remote_url(url.as_str()) {
                            Some(p) => p,
                            None => return Err(ConfigError::BadRemote { url: trim_string(url.as_str()) }),
                        },
                        None => return Err(ConfigError::NoRemote),
                    },
                };
                Scope::Repo {
                    org: target.0,
                    repo: target.1,
                    status_filter: status,
                    format,
                    strict,
                    suggest,
                }
            },
        };
        Ok(Config {
            scope,
            token,
            refresh: cli.refresh,
            cache_dir,
            cache_ttl: cli.cache_ttl,
            lookback_days: cli.lookback_days,
            max_team_size: cli.max_team_size,
            exclude_team: cli.exclude_team,
        })
    }
}

} // verus!
