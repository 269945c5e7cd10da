//! The outcome of reconciling one repo, and the tally over many.
use vstd::prelude::*;

use crate::cli::StatusFilter;
use crate::suggest::types::SuggestionResult;

verus! {

#[derive(Debug, Clone, Copy, PartialEq, Eq, Structural)]
pub enum AlignmentStatus {
    Aligned,
    Mismatched,
    CatalogOnly,
    CodeownersOnly,
    AdminOnly,
    Stale,
    Missing,
}

/// The status a `--status` filter value selects.
pub open spec fn filter_status(f: StatusFilter) -> AlignmentStatus {
    match f {
        StatusFilter::Aligned => AlignmentStatus::Aligned,
        StatusFilter::Mismatched => AlignmentStatus::Mismatched,
        StatusFilter::CatalogOnly => AlignmentStatus::CatalogOnly,
        StatusFilter::CodeownersOnly => AlignmentStatus::CodeownersOnly,
        StatusFilter::AdminOnly => AlignmentStatus::AdminOnly,
        StatusFilter::Stale => AlignmentStatus::Stale,
        StatusFilter::Missing => AlignmentStatus::Missing,
    }
}

/// The name a status is shown and filtered by.
pub open spec fn status_label(s: AlignmentStatus) -> Seq<char> {
    match s {
        AlignmentStatus::Aligned => "aligned"@,
        AlignmentStatus::Mismatched => "mismatched"@,
        AlignmentStatus::CatalogOnly => "catalog-only"@,
        AlignmentStatus::CodeownersOnly => "codeowners-only"@,
        AlignmentStatus::AdminOnly => "admin-only"@,
        AlignmentStatus::Stale => "stale"@,
        AlignmentStatus::Missing => "missing"@,
    }
}

impl AlignmentStatus {
    /// Kept by a `--status` filter: every status passes an empty filter,
    /// otherwise the status must be one the filter names.
    pub fn matches_filter(&self, filters: &[StatusFilter]) -> (b: bool)
        ensures
            b == (filters@.len() == 0 || exists|i: int|
                0 <= i < filters@.len() && filter_status(#[trigger] filters@[i]) == *self),
    {
        if filters.len() == 0 {
            return true;
        }
        let mut i: usize = 0;
        while i < filters.len()
            invariant
                i <= filters@.len(),
                forall|j: int| 0 <= j < i ==> filter_status(#[trigger] filters@[j]) != *self,
            decreases filters.len() - i,
        {
            let hit = match filters[i] {
                StatusFilter::Aligned => *self == AlignmentStatus::Aligned,
                StatusFilter::Mismatched => *self == AlignmentStatus::Mismatched,
                StatusFilter::CatalogOnly => *self == AlignmentStatus::CatalogOnly,
                StatusFilter::CodeownersOnly => *self == AlignmentStatus::CodeownersOnly,
                StatusFilter::AdminOnly => *self == AlignmentStatus::AdminOnly,
                StatusFilter::Stale => *self == AlignmentStatus::Stale,
                StatusFilter::Missing => *self == AlignmentStatus::Missing,
            };
            if hit {
                return true;
            }
            i = i + 1;
        }
        false
    }

    /// The status's name, as the table, CSV and `Display` show it.
    pub fn label(&self) -> (s: String)
        ensures
            s@ == status_label(*self),
    {
        match self {
            AlignmentStatus::Aligned => "aligned".to_owned(),
            AlignmentStatus::Mismatched => "mismatched".to_owned(),
            AlignmentStatus::CatalogOnly => "catalog-only".to_owned(),
            AlignmentStatus::CodeownersOnly => "codeowners-only".to_owned(),
            AlignmentStatus::AdminOnly => "admin-only".to_owned(),
            AlignmentStatus::Stale => "stale".to_owned(),
            AlignmentStatus::Missing => "missing".to_owned(),
        }
    }
}

/// The ownership picture of one repo.
#[derive(Debug, Clone)]
pub struct RepoOwnership {
    pub repo_name: String,
    /// Last push, in seconds since the Unix epoch (UTC).
    pub pushed_at: Option<i64>,
    pub catalog_owner: Option<String>,
    pub codeowners_teams: Vec<String>,
    pub catalog_team_exists: Option<bool>,
    pub codeowners_teams_exist: Vec<(String, bool)>,
    pub admin_teams: Vec<String>,
    pub alignment: AlignmentStatus,
    pub notes: Vec<String>,
    pub suggested_owners: Option<SuggestionResult>,
}

/// How many of `s` are `st`.
pub open spec fn count_status(s: Seq<AlignmentStatus>, st: AlignmentStatus) -> nat
    decreases s.len(),
{
    if s.len() == 0 {
        0
    } else {
        count_status(s.drop_last(), st) + if s.last() == st {
            1nat
        } else {
            0nat
        }
    }
}

/// The statuses of `repos`, in order.
pub open spec fn statuses(repos: Seq<RepoOwnership>) -> Seq<AlignmentStatus> {
    repos.map_values(|r: RepoOwnership| r.alignment)
}

/// A tally of repos by alignment status.
#[derive(Debug, Clone)]
pub struct AuditSummary {
    pub total: usize,
    pub aligned: usize,
    pub mismatched: usize,
    pub catalog_only: usize,
    pub codeowners_only: usize,
    pub admin_only: usize,
    pub stale: usize,
    pub missing: usize,
    pub repos: Vec<RepoOwnership>,
}

impl AuditSummary {
    /// The count the summary keeps for `st`.
    pub open spec fn count_of(&self, st: AlignmentStatus) -> nat {
        match st {
            AlignmentStatus::Aligned => self.aligned as nat,
            AlignmentStatus::Mismatched => self.mismatched as nat,
            AlignmentStatus::CatalogOnly => self.catalog_only as nat,
            AlignmentStatus::CodeownersOnly => self.codeowners_only as nat,
            AlignmentStatus::AdminOnly => self.admin_only as nat,
            AlignmentStatus::Stale => self.stale as nat,
            AlignmentStatus::Missing => self.missing as nat,
        }
    }

    /// Tally `repos` by status; the repos are kept as given.
    pub fn from_repos(repos: Vec<RepoOwnership>) -> (s: Self)
        ensures
            s.repos@ == repos@,
            s.total == repos@.len(),
            forall|st: AlignmentStatus| #[trigger] s.count_of(st) == count_status(
                statuses(repos@),
                st,
            ),
    {
        let mut aligned: usize = 0;
        let mut mismatched: usize = 0;
        let mut catalog_only: usize = 0;
        let mut codeowners_only: usize = 0;
        let mut admin_only: usize = 0;
        let mut stale: usize = 0;
        let mut missing: usize = 0;
        let mut i: usize = 0;
        let ghost st = statuses(repos@);
        while i < repos.len()
            invariant
                i <= repos@.len(),
                st == statuses(repos@),
                aligned == count_status(st.take(i as int), AlignmentStatus::Aligned),
                mismatched == count_status(st.take(i as int), AlignmentStatus::Mismatched),
                catalog_only == count_status(st.take(i as int), AlignmentStatus::CatalogOnly),
                codeowners_only == count_status(st.take(i as int), AlignmentStatus::CodeownersOnly),
                admin_only == count_status(st.take(i as int), AlignmentStatus::AdminOnly),
                stale == count_status(st.take(i as int), AlignmentStatus::Stale),
                missing == count_status(st.take(i as int), AlignmentStatus::Missing),
                aligned + mismatched + catalog_only + codeowners_only + admin_only + stale + missing
                    == i,
            decreases repos.len() - i,
        {
            assert(st.take(i + 1).drop_last() =~= st.take(i as int));
            assert(st.take(i + 1).last() == repos@[i as int].alignment);
            match repos[i].alignment {
                AlignmentStatus::Aligned => aligned = aligned + 1,
                AlignmentStatus::Mismatched => mismatched = mismatched + 1,
                AlignmentStatus::CatalogOnly => catalog_only = catalog_only + 1,
                AlignmentStatus::CodeownersOnly => codeowners_only = codeowners_only + 1,
                AlignmentStatus::AdminOnly => admin_only = admin_only + 1,
                AlignmentStatus::Stale => stale = stale + 1,
                AlignmentStatus::Missing => missing = missing + 1,
            }
            i = i + 1;
        }
        assert(st.take(repos@.len() as int) =~= st);
        let total = repos.len();
        AuditSummary {
            total,
            aligned,
            mismatched,
            catalog_only,
            codeowners_only,
            admin_only,
            stale,
            missing,
            repos,
        }
    }
}

/// Every repo is counted under exactly one status: the seven counts of a
/// summary add up to its total.
pub proof fn law_counts_add_up(s: Seq<AlignmentStatus>)
    ensures
        count_status(s, AlignmentStatus::Aligned) + count_status(s, AlignmentStatus::Mismatched)
            + count_status(s, AlignmentStatus::CatalogOnly) + count_status(
            s,
            AlignmentStatus::CodeownersOnly,
        ) + count_status(s, AlignmentStatus::AdminOnly) + count_status(s, AlignmentStatus::Stale)
            + count_status(s, AlignmentStatus::Missing) == s.len(),
    decreases s.len(),
{
    if s.len() > 0 {
        law_counts_add_up(s.drop_last());
    }
}

} // verus!
