//! The decisions an audit run makes around reconciliation: which repos a
//! `--team` filter keeps, when to suggest owners, and the exit code.
use vstd::prelude::*;

use crate::cli::{StatusFilter, SuggestMode};
use crate::github::repos::RepoInfo;
use crate::reconcile::alignment::{reconcile, reconciles_to};
use crate::reconcile::types::{filter_status, AlignmentStatus, RepoOwnership};
use crate::sources::codeowners::{extract_teams, rule_teams};
use crate::sources::fetcher::RepoSources;
use crate::text::{chars_of, string_opt, views};

verus! {

/// `c` is an ASCII capital letter.
pub open spec fn is_ascii_upper(c: char) -> bool {
    65 <= (c as u32) <= 90
}

/// `x` and `y` are the same character up to ASCII case.
pub open spec fn same_char_ignoring_ascii_case(x: char, y: char) -> bool {
    ||| x == y
    ||| is_ascii_upper(x) && (x as u32) + 32 == (y as u32)
    ||| is_ascii_upper(y) && (y as u32) + 32 == (x as u32)
}

/// `a` and `b` are equal up to ASCII case, as `str::eq_ignore_ascii_case` decides.
pub open spec fn eq_ignoring_ascii_case(a: Seq<char>, b: Seq<char>) -> bool {
    a.len() == b.len() && forall|i: int|
        0 <= i < a.len() ==> same_char_ignoring_ascii_case(#[trigger] a[i], b[i])
}

/// `name` matches one of `filters`, ignoring ASCII case.
pub open spec fn matches_any(name: Seq<char>, filters: Seq<Seq<char>>) -> bool {
    exists|j: int| 0 <= j < filters.len() && eq_ignoring_ascii_case(name, #[trigger] filters[j])
}

/// Some team of `teams` matches one of `filters`.
pub open spec fn any_matches(teams: Seq<Seq<char>>, filters: Seq<Seq<char>>) -> bool {
    exists|i: int| 0 <= i < teams.len() && matches_any(#[trigger] teams[i], filters)
}

/// A `--team` filter keeps a repo when it is empty, or when the catalog
/// owner, a CODEOWNERS team or an admin team matches one of its teams.
pub open spec fn team_filter_keeps(repo: RepoOwnership, filters: Seq<Seq<char>>) -> bool {
    ||| filters.len() == 0
    ||| (string_opt(repo.catalog_owner) matches Some(o) && matches_any(o, filters))
    ||| any_matches(views(repo.codeowners_teams@), filters)
    ||| any_matches(views(repo.admin_teams@), filters)
}

/// `status` is one that `mode` asks suggestions for.
pub open spec fn mode_covers(mode: SuggestMode, status: AlignmentStatus) -> bool {
    match mode {
        SuggestMode::Missing => status == AlignmentStatus::Missing,
        SuggestMode::Stale => status == AlignmentStatus::Stale,
        SuggestMode::Mismatched => status == AlignmentStatus::Mismatched,
        SuggestMode::Partial => status == AlignmentStatus::CatalogOnly || status
            == AlignmentStatus::CodeownersOnly || status == AlignmentStatus::AdminOnly,
    }
}

/// Owners are suggested for `missing` and `stale` repos by default, and for
/// the statuses that the given modes name otherwise.
pub open spec fn suggests_for(status: AlignmentStatus, modes: Seq<SuggestMode>) -> bool {
    if modes.len() == 0 {
        status == AlignmentStatus::Missing || status == AlignmentStatus::Stale
    } else {
        exists|i: int| 0 <= i < modes.len() && mode_covers(#[trigger] modes[i], status)
    }
}

/// `a` and `b` are equal up to ASCII case.
pub fn eq_ignore_ascii_case(a: &str, b: &str) -> (r: bool)
    ensures
        r == eq_ignoring_ascii_case(a@, b@),
{
    let x = chars_of(a);
    let y = chars_of(b);
    if x.len() != y.len() {
        return false;
    }
    let mut i: usize = 0;
    while i < x.len()
        invariant
            i <= x@.len() == y@.len(),
            x@ == a@,
            y@ == b@,
            forall|j: int| 0 <= j < i ==> same_char_ignoring_ascii_case(#[trigger] x@[j], y@[j]),
        decreases x.len() - i,
    {
        let c = x[i];
        let d = y[i];
        let cu = c as u32;
        let du = d as u32;
        let same = c == d || (65 <= cu && cu <= 90 && cu + 32 == du) || (65 <= du && du <= 90 && du
            + 32 == cu);
        if !same {
            return false;
        }
        i = i + 1;
    }
    true
}

/// `name` matches one of `filters`.
fn matches_one(name: &String, filters: &[String]) -> (r: bool)
    ensures
        r == matches_any(name@, views(filters@)),
{
    let mut j: usize = 0;
    while j < filters.len()
        invariant
            j <= filters@.len(),
            forall|k: int| 0 <= k < j ==> !eq_ignoring_ascii_case(name@, #[trigger] filters@[k]@),
        decreases filters.len() - j,
    {
        if eq_ignore_ascii_case(name.as_str(), filters[j].as_str()) {
            assert(views(filters@)[j as int] == filters@[j as int]@);
            return true;
        }
        j = j + 1;
    }
    assert forall|k: int| 0 <= k < views(filters@).len() implies !eq_ignoring_ascii_case(
        name@,
        #[trigger] views(filters@)[k],
    ) by {
        assert(views(filters@)[k] == filters@[k]@);
    }
    false
}

/// Some team of `teams` matches one of `filters`.
fn some_matches(teams: &Vec<String>, filters: &[String]) -> (r: bool)
    ensures
        r == any_matches(views(teams@), views(filters@)),
{
    let mut i: usize = 0;
    while i < teams.len()
        invariant
            i <= teams@.len(),
            forall|k: int| 0 <= k < i ==> !matches_any(#[trigger] teams@[k]@, views(filters@)),
        decreases teams.len() - i,
    {
        if matches_one(&teams[i], filters) {
            assert(views(teams@)[i as int] == teams@[i as int]@);
            return true;
        }
        i = i + 1;
    }
    assert forall|k: int| 0 <= k < views(teams@).len() implies !matches_any(
        #[trigger] views(teams@)[k],
        views(filters@),
    ) by {
        assert(views(teams@)[k] == teams@[k]@);
    }
    false
}

/// Whether a `--team` filter keeps `repo`: an empty filter keeps every repo,
/// otherwise one of its sources must name one of the teams (ignoring ASCII case).
pub fn matches_team_filter(repo: &RepoOwnership, teams: &[String]) -> (r: bool)
    ensures
        r == team_filter_keeps(*repo, views(teams@)),
{
    if teams.len() == 0 {
        return true;
    }
    let cat = match &repo.catalog_owner {
        Some(o) => matches_one(o, teams),
        None => false,
    };
    cat || some_matches(&repo.codeowners_teams, teams) || some_matches(&repo.admin_teams, teams)
}

/// Whether to suggest owners for a repo with `status`.
pub fn should_suggest(status: AlignmentStatus, modes: &[SuggestMode]) -> (r: bool)
    ensures
        r == suggests_for(status, modes@),
{
    if modes.len() == 0 {
        return status == AlignmentStatus::Missing || status == AlignmentStatus::Stale;
    }
    let mut i: usize = 0;
    while i < modes.len()
        invariant
            i <= modes@.len(),
            modes@.len() > 0,
            forall|k: int| 0 <= k < i ==> !mode_covers(#[trigger] modes@[k], status),
        decreases modes.len() - i,
    {
        let hit = match modes[i] {
            SuggestMode::Missing => status == AlignmentStatus::Missing,
            SuggestMode::Stale => status == AlignmentStatus::Stale,
            SuggestMode::Mismatched => status == AlignmentStatus::Mismatched,
            SuggestMode::Partial => status == AlignmentStatus::CatalogOnly || status
                == AlignmentStatus::CodeownersOnly || status == AlignmentStatus::AdminOnly,
        };
        if hit {
            return true;
        }
        i = i + 1;
    }
    false
}

/// The exit code of a successful run: 1 when a `--status` filter was given
/// and matched at least one repo ("the problem you were looking for
/// exists"), 0 otherwise.
pub fn exit_code(status_filter_given: bool, matched: usize) -> (code: i32)
    ensures
        code == if status_filter_given && matched > 0 {
            1i32
        } else {
            0i32
        },
{
    if status_filter_given && matched > 0 {
        1
    } else {
        0
    }
}

/// The last push the listing records for the first repo named `name`.
pub open spec fn listed_push(repos: Seq<RepoInfo>, name: Seq<char>) -> Option<i64>
    decreases repos.len(),
{
    if repos.len() == 0 {
        None
    } else if repos[0].name@ == name {
        repos[0].pushed_at
    } else {
        listed_push(repos.drop_first(), name)
    }
}

/// The teams a fetched CODEOWNERS file names on its wildcard rule (none
/// when there is no file).
pub open spec fn codeowners_teams_of(file: Option<String>) -> Seq<Seq<char>> {
    match file {
        Some(c) => rule_teams(c@),
        None => seq![],
    }
}

/// `r` is the reconciliation of one repo's sources, with the catalog owner
/// `owner` read from its catalog file and the last push from the listing.
pub open spec fn audit_of(
    r: RepoOwnership,
    src: RepoSources,
    owner: Option<Seq<char>>,
    repos: Seq<RepoInfo>,
    valid: Seq<Seq<char>>,
    strict: bool,
) -> bool {
    reconciles_to(
        r,
        src.repo_name@,
        listed_push(repos, src.repo_name@),
        owner,
        codeowners_teams_of(src.codeowners),
        views(src.admin_teams@),
        valid,
        strict,
    )
}

/// A `--status` filter keeps `status`: every status passes an empty filter.
pub open spec fn status_selected(status: AlignmentStatus, filters: Seq<StatusFilter>) -> bool {
    filters.len() == 0 || exists|i: int|
        0 <= i < filters.len() && filter_status(#[trigger] filters[i]) == status
}

/// Both filters keep `r`.
pub open spec fn filters_keep(
    r: RepoOwnership,
    team_filter: Seq<Seq<char>>,
    status_filter: Seq<StatusFilter>,
) -> bool {
    team_filter_keeps(r, team_filter) && status_selected(r.alignment, status_filter)
}

/// `out` holds, in the order of `sources`, the reconciliation of each
/// repo that both filters keep, and nothing else; `kept` says which.
pub open spec fn org_audit(
    out: Seq<RepoOwnership>,
    kept: Seq<int>,
    sources: Seq<RepoSources>,
    owners: Seq<Option<String>>,
    repos: Seq<RepoInfo>,
    valid: Seq<Seq<char>>,
    strict: bool,
    team_filter: Seq<Seq<char>>,
    status_filter: Seq<StatusFilter>,
) -> bool {
    &&& kept.len() == out.len()
    &&& forall|k: int| 0 <= k < kept.len() ==> 0 <= #[trigger] kept[k] < sources.len()
    &&& forall|k: int, l: int| 0 <= k < l < kept.len() ==> kept[k] < kept[l]
    &&& forall|k: int|
        0 <= k < kept.len() ==> audit_of(
            #[trigger] out[k],
            sources[kept[k]],
            string_opt(owners[kept[k]]),
            repos,
            valid,
            strict,
        ) && filters_keep(out[k], team_filter, status_filter)
    &&& forall|i: int, r: RepoOwnership|
        0 <= i < sources.len() && !kept.contains(i) && #[trigger] audit_of(
            r,
            sources[i],
            string_opt(owners[i]),
            repos,
            valid,
            strict,
        ) ==> !filters_keep(r, team_filter, status_filter)
}

/// Two reconciliations of the same sources pass the same filters.
proof fn lemma_filters_agree(
    a: RepoOwnership,
    b: RepoOwnership,
    src: RepoSources,
    owner: Option<Seq<char>>,
    repos: Seq<RepoInfo>,
    valid: Seq<Seq<char>>,
    strict: bool,
    team_filter: Seq<Seq<char>>,
    status_filter: Seq<StatusFilter>,
)
    requires
        audit_of(a, src, owner, repos, valid, strict),
        audit_of(b, src, owner, repos, valid, strict),
    ensures
        filters_keep(a, team_filter, status_filter) == filters_keep(b, team_filter, status_filter),
{
    assert(a.alignment == b.alignment);
    assert(string_opt(a.catalog_owner) == string_opt(b.catalog_owner));
    assert(views(a.codeowners_teams@) == views(b.codeowners_teams@));
    assert(views(a.admin_teams@) == views(b.admin_teams@));
}

/// The last push the listing records for `name`.
fn push_of(repos: &[RepoInfo], name: &String) -> (p: Option<i64>)
    ensures
        p == listed_push(repos@, name@),
{
    let mut j: usize = 0;
    assert(repos@.skip(0) =~= repos@);
    while j < repos.len()
        invariant
            j <= repos@.len(),
            listed_push(repos@, name@) == listed_push(repos@.skip(j as int), name@),
        decreases repos.len() - j,
    {
        assert(repos@.skip(j as int)[0] == repos@[j as int]);
        assert(repos@.skip(j as int).drop_first() =~= repos@.skip(j + 1));
        if repos[j].name.eq(name) {
            return repos[j].pushed_at;
        }
        j = j + 1;
    }
    None
}

/// Reconciles one repo's sources.
fn audit_one(
    src: &RepoSources,
    owner: &Option<String>,
    repos: &[RepoInfo],
    valid_teams: &[String],
    strict: bool,
) -> (r: RepoOwnership)
    ensures
        audit_of(r, *src, string_opt(*owner), repos@, views(valid_teams@), strict),
{
    let pushed_at = push_of(repos, &src.repo_name);
    let teams: Vec<String> = match &src.codeowners {
        Some(c) => extract_teams(c.as_str()),
        None => Vec::new(),
    };
    assert(views(teams@) == codeowners_teams_of(src.codeowners));
    let cat: Option<&str> = match owner {
        Some(o) => Some(o.as_str()),
        None => None,
    };
    reconcile(
        src.repo_name.as_str(),
        pushed_at,
        cat,
        teams.as_slice(),
        src.admin_teams.as_slice(),
        valid_teams,
        strict,
    )
}

/// The audit of an org: each repo's sources reconciled (with its catalog
/// owner from `catalog_owners`, at the same index, and its last push from
/// the listing), keeping, in order, the repos that the `--team` and
/// `--status` filters keep.
pub fn audit_org(
    sources: &[RepoSources],
    catalog_owners: &[Option<String>],
    repos: &[RepoInfo],
    valid_teams: &[String],
    strict: bool,
    team_filter: &[String],
    status_filter: &[StatusFilter],
) -> (out: Vec<RepoOwnership>)
    requires
        catalog_owners@.len() == sources@.len(),
    ensures
        exists|kept: Seq<int>|
            org_audit(
                out@,
                kept,
                sources@,
                catalog_owners@,
                repos@,
                views(valid_teams@),
                strict,
                views(team_filter@),
                status_filter@,
            ),
{
    let ghost valid = views(valid_teams@);
    let ghost tf = views(team_filter@);
    let ghost sf = status_filter@;
    let mut out: Vec<RepoOwnership> = Vec::new();
    let ghost mut kept: Seq<int> = seq![];
    let mut i: usize = 0;
    while i < sources.len()
        invariant
            i <= sources@.len(),
            catalog_owners@.len() == sources@.len(),
            valid == views(valid_teams@),
            tf == views(team_filter@),
            sf == status_filter@,
            kept.len() == out@.len(),
            forall|k: int| 0 <= k < kept.len() ==> 0 <= #[trigger] kept[k] < i,
            forall|k: int, l: int| 0 <= k < l < kept.len() ==> kept[k] < kept[l],
            forall|k: int|
                0 <= k < kept.len() ==> audit_of(
                    #[trigger] out@[k],
                    sources@[kept[k]],
                    string_opt(catalog_owners@[kept[k]]),
                    repos@,
                    valid,
                    strict,
                ) && filters_keep(out@[k], tf, sf),
            forall|j: int, r: RepoOwnership|
                0 <= j < i && !kept.contains(j) && #[trigger] audit_of(
                    r,
                    sources@[j],
                    string_opt(catalog_owners@[j]),
                    repos@,
                    valid,
                    strict,
                ) ==> !filters_keep(r, tf, sf),
        decreases sources.len() - i,
    {
        let r = audit_one(&sources[i], &catalog_owners[i], repos, valid_teams, strict);
        let keep = matches_team_filter(&r, team_filter) && r.alignment.matches_filter(status_filter);
        proof {
            assert(keep == filters_keep(r, tf, sf));
            assert forall|q: RepoOwnership|
                #[trigger] audit_of(
                    q,
                    sources@[i as int],
                    string_opt(catalog_owners@[i as int]),
                    repos@,
                    valid,
                    strict,
                ) implies filters_keep(q, tf, sf) == keep by {
                lemma_filters_agree(
                    q,
                    r,
                    sources@[i as int],
                    string_opt(catalog_owners@[i as int]),
                    repos@,
                    valid,
                    strict,
                    tf,
                    sf,
                );
            }
        }
        if keep {
            out.push(r);
            proof {
                let old_kept = kept;
                kept = kept.push(i as int);
                assert forall|j: int| 0 <= j < i && !kept.contains(j) implies !old_kept.contains(j) by {
                    if old_kept.contains(j) {
                        let w = choose|w: int| 0 <= w < old_kept.len() && old_kept[w] == j;
                        assert(kept[w] == j);
                    }
                }
            }
        } else {
            proof {
                assert(!kept.contains(i as int));
            }
        }
        proof {
            assert forall|j: int, q: RepoOwnership|
                0 <= j < i + 1 && !kept.contains(j) && #[trigger] audit_of(
                    q,
                    sources@[j],
                    string_opt(catalog_owners@[j]),
                    repos@,
                    valid,
                    strict,
                ) implies !filters_keep(q, tf, sf) by {
                if j == i {
                    assert(filters_keep(q, tf, sf) == keep);
                    if keep {
                        assert(kept[kept.len() - 1] == i);
                    }
                }
            }
        }
        i = i + 1;
    }
    proof {
        assert(org_audit(
            out@,
            kept,
            sources@,
            catalog_owners@,
            repos@,
            valid,
            strict,
            tf,
            sf,
        ));
    }
    out
}

} // verus!
