//! The command line as plain values: what `ownrs` was asked to do.
use vstd::prelude::*;

verus! {

/// The parsed command line.
pub struct Cli {
    pub command: Command,
    /// Force re-fetch cached data
    pub refresh: bool,
    /// Cache directory
    pub cache_dir: Option<String>,
    /// Cache TTL in seconds
    pub cache_ttl: u64,
    /// GitHub token (defaults to GITHUB_TOKEN env var)
    pub token: Option<String>,
    /// Activity lookback window for suggestions, in days
    pub lookback_days: u64,
    /// Teams with more members than this are left out of suggestions
    pub max_team_size: usize,
    /// Teams left out of suggestions
    pub exclude_team: Vec<String>,
}

/// The subcommands.
pub enum Command {
    /// Audit repos across a GitHub org
    Org {
        /// GitHub organization name
        org: String,
        /// Audit only the first N repos
        limit: Option<usize>,
        /// Sort order: stale (default), active, name
        sort: SortOrder,
        /// Filter to repos referencing this team
        team: Vec<String>,
        /// Filter by alignment status
        status: Vec<StatusFilter>,
        /// Output format: table (default), csv, json
        format: OutputFormat,
        /// Show per-repo breakdown
        detail: bool,
        /// Require exact team set match across all sources (default: intersection)
        strict: bool,
    },
    /// Audit a single repo
    Repo {
        /// org/repo (auto-detected from git remote if omitted)
        repo: Option<String>,
        /// Filter by alignment status
        status: Vec<StatusFilter>,
        /// Output format: table (default), json
        format: OutputFormat,
        /// Require exact team set match across all sources (default: intersection)
        strict: bool,
        /// Statuses that trigger owner suggestions (default: missing and stale)
        suggest: Vec<SuggestMode>,
    },
}

#[derive(Clone, Copy, Debug, PartialEq, Eq, Structural)]
pub enum SortOrder {
    Stale,
    Active,
    Name,
}

#[derive(Clone, Copy, Debug, PartialEq, Eq, Structural)]
pub enum StatusFilter {
    Aligned,
    Mismatched,
    Stale,
    Missing,
    CatalogOnly,
    CodeownersOnly,
    AdminOnly,
}

#[derive(Clone, Copy, Debug, PartialEq, Eq, Structural)]
pub enum OutputFormat {
    Table,
    Csv,
    Json,
}

/// Which alignment statuses trigger owner suggestions.
#[derive(Clone, Copy, Debug, PartialEq, Eq, Structural)]
pub enum SuggestMode {
    /// `missing` only
    Missing,
    /// `stale` only
    Stale,
    /// `mismatched`: sources present, no team overlap
    Mismatched,
    /// `catalog-only`, `codeowners-only` and `admin-only`
    Partial,
}

/// Kinds of repos an org listing can leave out.
#[derive(Clone, Copy, Debug, PartialEq, Eq, Structural)]
pub enum RepoExclude {
    Archived,
    Forks,
    Empty,
    Template,
    Mirror,
    /// `none`: leave nothing out, whatever else is listed.
    Nothing,
}

/// Repo visibilities an org listing can be limited to.
#[derive(Clone, Copy, Debug, PartialEq, Eq, Structural)]
pub enum Visibility {
    Public,
    Private,
    Internal,
}

} // verus!
