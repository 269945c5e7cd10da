//! The CSV export: one record per repo.
use vstd::prelude::*;

use crate::reconcile::types::{status_label, RepoOwnership};
use crate::suggest::types::{SuggestionResult, TeamSuggestion};
use crate::text::{join, join_strings, views};
use crate::timestamp::{format_rfc3339, rfc3339_text};

verus! {

/// The names of the CSV columns.
pub open spec fn csv_columns() -> Seq<Seq<char>> {
    seq![
        "repo"@,
        "status"@,
        "catalog_owner"@,
        "codeowners_teams"@,
        "admin_teams"@,
        "catalog_team_exists"@,
        "pushed_at"@,
        "notes"@,
        "suggested_owners"@,
    ]
}

/// The suggested teams' names, `; `-separated; empty without suggestions.
pub open spec fn suggested_teams_field(s: Option<SuggestionResult>) -> Seq<char> {
    match s {
        Some(r) => join(r.suggestions@.map_values(|t: TeamSuggestion| t.team@), "; "@),
        None => seq![],
    }
}

/// The fields of a repo's record, in column order.
pub open spec fn csv_fields(r: RepoOwnership) -> Seq<Seq<char>> {
    seq![
        r.repo_name@,
        status_label(r.alignment),
        match r.catalog_owner {
            Some(o) => o@,
            None => seq![],
        },
        join(views(r.codeowners_teams@), ", "@),
        join(views(r.admin_teams@), ", "@),
        match r.catalog_team_exists {
            Some(true) => "true"@,
            Some(false) => "false"@,
            None => seq![],
        },
        match r.pushed_at {
            Some(t) => match rfc3339_text(t) {
                Some(d) => d,
                None => seq![],
            },
            None => seq![],
        },
        join(views(r.notes@), "; "@),
        suggested_teams_field(r.suggested_owners),
    ]
}

/// The header record.
pub fn csv_header() -> (h: Vec<String>)
    ensures
        views(h@) == csv_columns(),
{
    let mut h: Vec<String> = Vec::new();
    h.push("repo".to_owned());
    h.push("status".to_owned());
    h.push("catalog_owner".to_owned());
    h.push("codeowners_teams".to_owned());
    h.push("admin_teams".to_owned());
    h.push("catalog_team_exists".to_owned());
    h.push("pushed_at".to_owned());
    h.push("notes".to_owned());
    h.push("suggested_owners".to_owned());
    assert(views(h@) =~= csv_columns());
    h
}

/// The suggested teams' names, `; `-separated.
fn suggested_teams(s: &Option<SuggestionResult>) -> (f: String)
    ensures
        f@ == suggested_teams_field(*s),
{
    match s {
        Some(r) => {
            let mut names: Vec<String> = Vec::new();
            let mut i: usize = 0;
            while i < r.suggestions.len()
                invariant
                    i <= r.suggestions@.len(),
                    views(names@) =~= r.suggestions@.map_values(|t: TeamSuggestion| t.team@).take(
                        i as int,
                    ),
                decreases r.suggestions.len() - i,
            {
                let ghost before = views(names@);
                names.push(r.suggestions[i].team.clone());
                assert(views(names@) =~= before.push(r.suggestions@[i as int].team@));
                i = i + 1;
            }
            assert(r.suggestions@.map_values(|t: TeamSuggestion| t.team@).take(
                r.suggestions@.len() as int,
            ) =~= r.suggestions@.map_values(|t: TeamSuggestion| t.team@));
            join_strings(names.as_slice(), "; ")
        },
        None => String::new(),
    }
}

/// A repo's record: name, status, catalog owner, CODEOWNERS and admin teams,
/// whether the catalog team exists, last push (RFC 3339), notes and the
/// suggested teams; absent values are empty fields.
pub fn csv_record(repo: &RepoOwnership) -> (rec: Vec<String>)
    ensures
        views(rec@) == csv_fields(*repo),
{
    let mut rec: Vec<String> = Vec::new();
    rec.push(repo.repo_name.clone());
    rec.push(repo.alignment.label());
    rec.push(
        match &repo.catalog_owner {
            Some(o) => o.clone(),
            None => String::new(),
        },
    );
    rec.push(join_strings(repo.codeowners_teams.as_slice(), ", "));
    rec.push(join_strings(repo.admin_teams.as_slice(), ", "));
    rec.push(
        match repo.catalog_team_exists {
            Some(true) => "true".to_owned(),
            Some(false) => "false".to_owned(),
            None => String::new(),
        },
    );
    rec.push(
        match repo.pushed_at {
            Some(t) => match format_rfc3339(t) {
                Some(d) => d,
                None => String::new(),
            },
            None => String::new(),
        },
    );
    rec.push(join_strings(repo.notes.as_slice(), "; "));
    rec.push(suggested_teams(&repo.suggested_owners));
    assert(views(rec@) =~= csv_fields(*repo));
    rec
}

/// The `catalog_team_exists` field spells out the flag: `true` exactly when
/// the catalog team exists, `false` exactly when it does not, and empty
/// exactly when there is no catalog owner to check.
pub proof fn law_team_exists_field_spells_the_flag(r: RepoOwnership)
    ensures
        csv_fields(r)[5] == "true"@ <==> r.catalog_team_exists == Some(true),
        csv_fields(r)[5] == "false"@ <==> r.catalog_team_exists == Some(false),
        csv_fields(r)[5].len() == 0 <==> r.catalog_team_exists is None,
{
    reveal_strlit("true");
    reveal_strlit("false");
    let f = match r.catalog_team_exists {
        Some(true) => "true"@,
        Some(false) => "false"@,
        None => Seq::<char>::empty(),
    };
    assert(csv_fields(r)[5] == f);
    assert("true"@.len() == 4 && "false"@.len() == 5);
}

} // verus!
