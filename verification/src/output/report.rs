//! The report on a single repo: its status, each source's owners, and the
//! suggested owners when there are any.
use vstd::prelude::*;

use crate::reconcile::types::{status_label, RepoOwnership};
use crate::suggest::types::{SuggestionResult, TeamSuggestion};
use crate::text::{chars_of, decimal, join, join_strings, push_char, push_decimal, views};
use crate::timestamp::{format_utc, minute_pattern, utc_text};

verus! {

/// The lines, each ended by a newline.
pub open spec fn lines_text(ls: Seq<Seq<char>>) -> Seq<char>
    decreases ls.len(),
{
    if ls.len() == 0 {
        seq![]
    } else {
        lines_text(ls.drop_last()) + ls.last() + "\n"@
    }
}

/// `s` padded with spaces to at least `width` characters, as `{:<width}` does.
pub open spec fn left_aligned(s: Seq<char>, width: nat) -> Seq<char> {
    if s.len() >= width {
        s
    } else {
        s + Seq::new((width - s.len()) as nat, |i: int| ' ')
    }
}

/// `count` followed by `one` or, unless it is 1, `many`.
pub open spec fn counted(count: nat, one: Seq<char>, many: Seq<char>) -> Seq<char> {
    decimal(count) + " "@ + if count == 1 {
        one
    } else {
        many
    }
}

/// The catalog line: the owner, and whether its team exists.
pub open spec fn catalog_line(r: RepoOwnership) -> Seq<char> {
    "Catalog:    "@ + match r.catalog_owner {
        Some(o) => o@,
        None => "(none)"@,
    } + match r.catalog_team_exists {
        Some(true) => " (team exists)"@,
        Some(false) => " (team NOT found)"@,
        None => seq![],
    }
}

/// One line per CODEOWNERS team, saying whether it exists.
pub open spec fn codeowners_lines(r: RepoOwnership) -> Seq<Seq<char>> {
    if r.codeowners_teams@.len() == 0 {
        seq!["CODEOWNERS: (none)"@]
    } else {
        r.codeowners_teams_exist@.map_values(
            |p: (String, bool)|
                "CODEOWNERS: "@ + p.0@ + " "@ + if p.1 {
                    "(team exists)"@
                } else {
                    "(team NOT found)"@
                },
        )
    }
}

/// The admin teams' line.
pub open spec fn admin_line(r: RepoOwnership) -> Seq<char> {
    if r.admin_teams@.len() == 0 {
        "Admin:      (none)"@
    } else {
        "Admin:      "@ + join(views(r.admin_teams@), ", "@)
    }
}

/// The last push's line, when there was one.
pub open spec fn push_lines(r: RepoOwnership) -> Seq<Seq<char>> {
    match r.pushed_at {
        Some(t) => seq![
            "Last Push:  "@ + match utc_text(t, minute_pattern()) {
                Some(d) => d,
                None => "-"@,
            },
        ],
        None => seq![],
    }
}

/// The notes' line, when there are notes.
pub open spec fn notes_lines(r: RepoOwnership) -> Seq<Seq<char>> {
    if r.notes@.len() == 0 {
        seq![]
    } else {
        seq!["Notes:      "@ + join(views(r.notes@), "; "@)]
    }
}

/// A suggested team's line: name, commits, reviews and active members.
pub open spec fn suggestion_line(s: TeamSuggestion) -> Seq<char> {
    "  "@ + left_aligned(s.team@, 16) + " "@ + counted(s.commits as nat, "commit"@, "commits"@)
        + ", "@ + counted(s.reviews as nat, "review"@, "reviews"@) + " ("@ + join(
        views(s.members@),
        ", "@,
    ) + ")"@
}

/// The suggestion lines: a blank line, then the teams or the absence of
/// activity, then (after a blank line) the contributors in no team.
pub open spec fn suggestion_lines(s: SuggestionResult) -> Seq<Seq<char>> {
    seq![seq![]] + if s.suggestions@.len() == 0 {
        seq![
            "Suggested:  No activity found in last "@ + decimal(s.lookback_days as nat) + " days"@,
        ]
    } else {
        seq![
            "Suggested owners (based on last "@ + decimal(s.lookback_days as nat)
                + " days of activity):"@,
        ] + s.suggestions@.map_values(|t: TeamSuggestion| suggestion_line(t))
    } + if s.unresolved@.len() == 0 {
        seq![]
    } else {
        seq![seq![], "Unresolved:        "@ + join(views(s.unresolved@), ", "@)]
    }
}

/// The name, status and catalog lines.
pub open spec fn head_lines(r: RepoOwnership) -> Seq<Seq<char>> {
    seq!["Repository: "@ + r.repo_name@, "Status:     "@ + status_label(r.alignment), catalog_line(r)]
}

/// The lines of the report on `r`.
pub open spec fn report_lines(r: RepoOwnership) -> Seq<Seq<char>> {
    head_lines(r) + codeowners_lines(r) + seq![admin_line(r)] + push_lines(r) + notes_lines(r)
        + match r.suggested_owners {
        Some(s) => suggestion_lines(s),
        None => seq![],
    }
}

/// Ends the text with `line` and a newline.
fn push_line(out: &mut String, line: &str, ls: Ghost<Seq<Seq<char>>>)
    requires
        old(out)@ == lines_text(ls@),
    ensures
        final(out)@ == lines_text(ls@.push(line@)),
{
    out.append(line);
    out.append("\n");
    assert(ls@.push(line@).drop_last() =~= ls@);
}

/// `s` padded with spaces to at least `width` characters.
fn pad_chars(s: &str, width: usize) -> (r: String)
    ensures
        r@ == left_aligned(s@, width as nat),
{
    let n = chars_of(s).len();
    let mut r = s.to_owned();
    if n >= width {
        return r;
    }
    let mut k: usize = 0;
    while k < width - n
        invariant
            n < width,
            n == s@.len(),
            k <= width - n,
            r@ == s@ + Seq::new(k as nat, |i: int| ' '),
        decreases width - n - k,
    {
        push_char(&mut r, ' ');
        k = k + 1;
        assert(r@ =~= s@ + Seq::new(k as nat, |i: int| ' '));
    }
    r
}

/// Appends `count` and the word for it.
fn push_counted(out: &mut String, count: usize, one: &str, many: &str)
    ensures
        final(out)@ == old(out)@ + counted(count as nat, one@, many@),
{
    push_decimal(out, count as u64);
    out.append(" ");
    if count == 1 {
        out.append(one);
    } else {
        out.append(many);
    }
}

/// A suggested team's line.
fn suggestion_text(s: &TeamSuggestion) -> (line: String)
    ensures
        line@ == suggestion_line(*s),
{
    let mut line = String::new();
    line.append("  ");
    let team = pad_chars(s.team.as_str(), 16);
    line.append(team.as_str());
    line.append(" ");
    push_counted(&mut line, s.commits, "commit", "commits");
    line.append(", ");
    push_counted(&mut line, s.reviews, "review", "reviews");
    line.append(" (");
    let members = join_strings(s.members.as_slice(), ", ");
    line.append(members.as_str());
    line.append(")");
    assert(line@ =~= suggestion_line(*s));
    line
}

/// Adds the suggestion lines to the report.
fn push_suggestions(out: &mut String, s: &SuggestionResult, ls: Ghost<Seq<Seq<char>>>)
    requires
        old(out)@ == lines_text(ls@),
    ensures
        final(out)@ == lines_text(ls@ + suggestion_lines(*s)),
{
    proof {
        reveal_strlit("");
        assert(""@ =~= Seq::<char>::empty());
    }
    let ghost mut acc = ls@.push(seq![]);
    push_line(out, "", ls);
    if s.suggestions.len() == 0 {
        let mut line = String::new();
        line.append("Suggested:  No activity found in last ");
        push_decimal(&mut line, s.lookback_days);
        line.append(" days");
        push_line(out, line.as_str(), Ghost(acc));
        proof {
            acc = acc.push(line@);
        }
    } else {
        let mut line = String::new();
        line.append("Suggested owners (based on last ");
        push_decimal(&mut line, s.lookback_days);
        line.append(" days of activity):");
        push_line(out, line.as_str(), Ghost(acc));
        proof {
            acc = acc.push(line@);
        }
        let ghost head = acc;
        let mut i: usize = 0;
        while i < s.suggestions.len()
            invariant
                i <= s.suggestions@.len(),
                acc == head + s.suggestions@.take(i as int).map_values(
                    |t: TeamSuggestion| suggestion_line(t),
                ),
                out@ == lines_text(acc),
            decreases s.suggestions.len() - i,
        {
            let t = suggestion_text(&s.suggestions[i]);
            push_line(out, t.as_str(), Ghost(acc));
            proof {
                acc = acc.push(t@);
                assert(acc =~= head + s.suggestions@.take(i + 1).map_values(
                    |t: TeamSuggestion| suggestion_line(t),
                ));
            }
            i = i + 1;
        }
        assert(s.suggestions@.take(s.suggestions@.len() as int) =~= s.suggestions@);
    }
    if s.unresolved.len() > 0 {
        push_line(out, "", Ghost(acc));
        proof {
            acc = acc.push(seq![]);
        }
        let mut line = String::new();
        line.append("Unresolved:        ");
        let names = join_strings(s.unresolved.as_slice(), ", ");
        line.append(names.as_str());
        push_line(out, line.as_str(), Ghost(acc));
        proof {
            acc = acc.push(line@);
        }
    }
    assert(acc =~= ls@ + suggestion_lines(*s));
}

/// The first three lines: name, status and catalog owner.
fn push_head(out: &mut String, repo: &RepoOwnership, ls: Ghost<Seq<Seq<char>>>)
    requires
        old(out)@ == lines_text(ls@),
    ensures
        final(out)@ == lines_text(ls@ + head_lines(*repo)),
{
    let ghost mut acc = ls@;
    let mut line = String::new();
    line.append("Repository: ");
    line.append(repo.repo_name.as_str());
    push_line(out, line.as_str(), Ghost(acc));
    proof {
        acc = acc.push(line@);
    }
    let mut line = String::new();
    line.append("Status:     ");
    let label = repo.alignment.label();
    line.append(label.as_str());
    push_line(out, line.as_str(), Ghost(acc));
    proof {
        acc = acc.push(line@);
    }
    let mut line = String::new();
    line.append("Catalog:    ");
    match &repo.catalog_owner {
        Some(o) => line.append(o.as_str()),
        None => line.append("(none)"),
    }
    match repo.catalog_team_exists {
        Some(true) => line.append(" (team exists)"),
        Some(false) => line.append(" (team NOT found)"),
        None => {},
    }
    assert(line@ =~= catalog_line(*repo));
    push_line(out, line.as_str(), Ghost(acc));
    proof {
        acc = acc.push(line@);
        assert(acc =~= ls@ + head_lines(*repo));
    }
}

/// The CODEOWNERS lines.
fn push_codeowners(out: &mut String, repo: &RepoOwnership, ls: Ghost<Seq<Seq<char>>>)
    requires
        old(out)@ == lines_text(ls@),
    ensures
        final(out)@ == lines_text(ls@ + codeowners_lines(*repo)),
{
    let ghost mut acc = ls@;
    if repo.codeowners_teams.len() == 0 {
        push_line(out, "CODEOWNERS: (none)", Ghost(acc));
        proof {
            acc = acc.push("CODEOWNERS: (none)"@);
            assert(acc =~= ls@ + codeowners_lines(*repo));
        }
    } else {
        let ghost marks = codeowners_lines(*repo);
        let mut i: usize = 0;
        while i < repo.codeowners_teams_exist.len()
            invariant
                i <= repo.codeowners_teams_exist@.len(),
                repo.codeowners_teams@.len() != 0,
                marks == codeowners_lines(*repo),
                acc == ls@ + marks.take(i as int),
                out@ == lines_text(acc),
            decreases repo.codeowners_teams_exist.len() - i,
        {
            let mut line = String::new();
            line.append("CODEOWNERS: ");
            line.append(repo.codeowners_teams_exist[i].0.as_str());
            line.append(" ");
            if repo.codeowners_teams_exist[i].1 {
                line.append("(team exists)");
            } else {
                line.append("(team NOT found)");
            }
            push_line(out, line.as_str(), Ghost(acc));
            proof {
                assert(line@ =~= marks[i as int]);
                acc = acc.push(line@);
                assert(acc =~= ls@ + marks.take(i + 1));
            }
            i = i + 1;
        }
        assert(marks.take(repo.codeowners_teams_exist@.len() as int) =~= marks);
    }
}

/// The admin, last push and notes lines.
fn push_rest(out: &mut String, repo: &RepoOwnership, ls: Ghost<Seq<Seq<char>>>)
    requires
        old(out)@ == lines_text(ls@),
    ensures
        final(out)@ == lines_text(ls@ + seq![admin_line(*repo)] + push_lines(*repo) + notes_lines(*repo)),
{
    let ghost mut acc = ls@;
    let mut line = String::new();
    if repo.admin_teams.len() == 0 {
        line.append("Admin:      (none)");
    } else {
        line.append("Admin:      ");
        let teams = join_strings(repo.admin_teams.as_slice(), ", ");
        line.append(teams.as_str());
    }
    assert(line@ =~= admin_line(*repo));
    push_line(out, line.as_str(), Ghost(acc));
    proof {
        acc = acc.push(line@);
    }
    match repo.pushed_at {
        Some(t) => {
            let mut line = String::new();
            line.append("Last Push:  ");
            match format_utc(t, "%Y-%m-%d %H:%M UTC") {
                Some(d) => line.append(d.as_str()),
                None => line.append("-"),
            }
            push_line(out, line.as_str(), Ghost(acc));
            proof {
                acc = acc.push(line@);
            }
        },
        None => {},
    }
    if repo.notes.len() > 0 {
        let mut line = String::new();
        line.append("Notes:      ");
        let notes = join_strings(repo.notes.as_slice(), "; ");
        line.append(notes.as_str());
        push_line(out, line.as_str(), Ghost(acc));
        proof {
            acc = acc.push(line@);
        }
    }
    assert(acc =~= ls@ + seq![admin_line(*repo)] + push_lines(*repo) + notes_lines(*repo));
}

/// The report on one repo, line by line: name, status, catalog owner, one
/// line per CODEOWNERS team, admin teams, last push, notes, then the
/// suggested owners when they were computed.
pub fn single_repo_report(repo: &RepoOwnership) -> (out: String)
    ensures
        out@ == lines_text(report_lines(*repo)),
{
    let mut out = String::new();
    let ghost e: Seq<Seq<char>> = seq![];
    push_head(&mut out, repo, Ghost(e));
    let ghost a1 = e + head_lines(*repo);
    push_codeowners(&mut out, repo, Ghost(a1));
    let ghost a2 = a1 + codeowners_lines(*repo);
    push_rest(&mut out, repo, Ghost(a2));
    let ghost a3 = a2 + seq![admin_line(*repo)] + push_lines(*repo) + notes_lines(*repo);
    match &repo.suggested_owners {
        Some(s) => {
            push_suggestions(&mut out, s, Ghost(a3));
            assert(a3 + suggestion_lines(*s) =~= report_lines(*repo));
        },
        None => {
            assert(a3 =~= report_lines(*repo));
        },
    }
    out
}

/// The report's catalog line (its third) ends in `(team exists)` when the
/// catalog team exists and in `(team NOT found)` when it does not; the two
/// cases never read alike.
pub proof fn law_catalog_line_tells_whether_the_team_exists(r: RepoOwnership)
    ensures
        ({
            let line = report_lines(r)[2];
            let says_exists = line.len() >= 13 && line.subrange(line.len() - 13, line.len() as int)
                == "(team exists)"@;
            let says_missing = line.len() >= 16 && line.subrange(line.len() - 16, line.len() as int)
                == "(team NOT found)"@;
            &&& r.catalog_team_exists == Some(true) ==> says_exists && !says_missing
            &&& r.catalog_team_exists == Some(false) ==> says_missing && !says_exists
        }),
{
    reveal_strlit("(team exists)");
    reveal_strlit("(team NOT found)");
    reveal_strlit(" (team exists)");
    reveal_strlit(" (team NOT found)");
    let line = report_lines(r)[2];
    assert(line == catalog_line(r));
    let head = "Catalog:    "@ + match r.catalog_owner {
        Some(o) => o@,
        None => "(none)"@,
    };
    match r.catalog_team_exists {
        Some(true) => {
            assert(line == head + " (team exists)"@);
            assert(line.subrange(line.len() - 13, line.len() as int) =~= "(team exists)"@);
            assert(line[line.len() - 2] == 's');
            if line.len() >= 16 && line.subrange(line.len() - 16, line.len() as int) == "(team NOT found)"@ {
                assert(line.subrange(line.len() - 16, line.len() as int)[14] == line[line.len() - 2]);
            }
        },
        Some(false) => {
            assert(line == head + " (team NOT found)"@);
            assert(line.subrange(line.len() - 16, line.len() as int) =~= "(team NOT found)"@);
            assert(line[line.len() - 2] == 'd');
            if line.subrange(line.len() - 13, line.len() as int) == "(team exists)"@ {
                assert(line.subrange(line.len() - 13, line.len() as int)[11] == line[line.len() - 2]);
            }
        },
        None => {},
    }
}

} // verus!
