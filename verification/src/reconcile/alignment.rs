//! Three-way reconciliation of CODEOWNERS, catalog-info.yaml and admin teams.
use vstd::prelude::*;

use super::types::{AlignmentStatus, RepoOwnership};
use crate::text::{
    clone_strings, contains_string, lowercase, str_opt, string_opt, to_lowercase, trim, trim_string,
    views,
};

verus! {

/// A team name as compared across sources: lowercased, then trimmed.
pub open spec fn normalize(t: Seq<char>) -> Seq<char> {
    trim(lowercase(t))
}

/// The normalized teams of one source, as a set.
pub open spec fn norm_set(ts: Seq<Seq<char>>) -> Set<Seq<char>> {
    ts.map_values(|t: Seq<char>| normalize(t)).to_set()
}

/// One note `prefix + team` for each of `ts` that `valid` lacks, in order.
pub open spec fn missing_notes(prefix: Seq<char>, ts: Seq<Seq<char>>, valid: Seq<Seq<char>>) -> Seq<
    Seq<char>,
>
    decreases ts.len(),
{
    if ts.len() == 0 {
        seq![]
    } else {
        let r = missing_notes(prefix, ts.drop_last(), valid);
        if valid.contains(ts.last()) {
            r
        } else {
            r.push(prefix + ts.last())
        }
    }
}

pub open spec fn catalog_missing_prefix() -> Seq<char> {
    "catalog-info.yaml references non-existent team: "@
}

pub open spec fn codeowners_missing_prefix() -> Seq<char> {
    "CODEOWNERS references non-existent team: "@
}

pub open spec fn admin_missing_prefix() -> Seq<char> {
    "Admin team does not exist: "@
}

/// A note for every referenced team that does not exist in the org:
/// the catalog owner, then the CODEOWNERS teams, then the admin teams.
pub open spec fn stale_notes(
    cat: Option<Seq<char>>,
    co: Seq<Seq<char>>,
    admin: Seq<Seq<char>>,
    valid: Seq<Seq<char>>,
) -> Seq<Seq<char>> {
    (match cat {
        Some(c) => if valid.contains(c) {
            seq![]
        } else {
            seq![catalog_missing_prefix() + c]
        },
        None => seq![],
    }) + missing_notes(codeowners_missing_prefix(), co, valid) + missing_notes(
        admin_missing_prefix(),
        admin,
        valid,
    )
}

/// The normalized team sets of the sources that are present, in the order
/// catalog, CODEOWNERS, admin.
pub open spec fn present_sets(cat: Option<Seq<char>>, co: Seq<Seq<char>>, admin: Seq<Seq<char>>) -> Seq<
    Set<Seq<char>>,
> {
    (match cat {
        Some(c) => seq![norm_set(seq![c])],
        None => seq![],
    }) + (if co.len() > 0 {
        seq![norm_set(co)]
    } else {
        seq![]
    }) + (if admin.len() > 0 {
        seq![norm_set(admin)]
    } else {
        seq![]
    })
}

/// Every set equals the first.
pub open spec fn all_same(sets: Seq<Set<Seq<char>>>) -> bool {
    forall|i: int| 0 <= i < sets.len() ==> #[trigger] sets[i] == sets[0]
}

/// `t` is in every set.
pub open spec fn in_every(sets: Seq<Set<Seq<char>>>, t: Seq<char>) -> bool {
    forall|i: int| 0 <= i < sets.len() ==> #[trigger] sets[i].contains(t)
}

/// Some team is in every set.
pub open spec fn have_common(sets: Seq<Set<Seq<char>>>) -> bool {
    exists|t: Seq<char>| #[trigger] in_every(sets, t)
}

/// The sets of strings that `vs` hold.
pub open spec fn vec_sets(vs: Seq<Vec<String>>) -> Seq<Set<Seq<char>>> {
    vs.map_values(|v: Vec<String>| views(v@).to_set())
}

/// The status and notes that reconciliation gives a repo.
///
/// Stale detection comes first and takes priority. Otherwise the sources that
/// are present decide: none is `Missing`, one is `*Only`, and two or more are
/// `Aligned` when (strict) their normalized team sets are all equal or
/// (default) some team is common to all of them, `Mismatched` otherwise.
pub open spec fn reconciled(
    cat: Option<Seq<char>>,
    co: Seq<Seq<char>>,
    admin: Seq<Seq<char>>,
    valid: Seq<Seq<char>>,
    strict: bool,
) -> (AlignmentStatus, Seq<Seq<char>>) {
    let stale = stale_notes(cat, co, admin, valid);
    let sets = present_sets(cat, co, admin);
    if stale.len() > 0 {
        (AlignmentStatus::Stale, stale)
    } else if sets.len() == 0 {
        (AlignmentStatus::Missing, seq!["No ownership metadata found"@])
    } else if sets.len() == 1 {
        if cat is Some {
            (AlignmentStatus::CatalogOnly, seq!["Only catalog-info.yaml has ownership"@])
        } else if co.len() > 0 {
            (AlignmentStatus::CodeownersOnly, seq!["Only CODEOWNERS has ownership"@])
        } else {
            (AlignmentStatus::AdminOnly, seq!["Only admin team membership has ownership"@])
        }
    } else if strict {
        if all_same(sets) {
            (AlignmentStatus::Aligned, seq![])
        } else {
            (AlignmentStatus::Mismatched, seq!["Sources have different team sets (strict mode)"@])
        }
    } else {
        if have_common(sets) {
            (AlignmentStatus::Aligned, seq![])
        } else {
            (AlignmentStatus::Mismatched, seq!["No common team across all ownership sources"@])
        }
    }
}

/// The view of an optional borrowed string.


/// A team name as compared across sources: lowercased, then trimmed.
pub fn normalize_team(team: &str) -> (r: String)
    ensures
        r@ == normalize(team@),
{
    let lower = to_lowercase(team);
    trim_string(lower.as_str())
}

/// Each of `ts`, normalized.
fn normalize_all(ts: &[String]) -> (r: Vec<String>)
    ensures
        views(r@) == views(ts@).map_values(|t: Seq<char>| normalize(t)),
{
    let mut r: Vec<String> = Vec::new();
    let mut i: usize = 0;
    while i < ts.len()
        invariant
            i <= ts@.len(),
            views(r@) =~= views(ts@).take(i as int).map_values(|t: Seq<char>| normalize(t)),
        decreases ts.len() - i,
    {
        let n = normalize_team(ts[i].as_str());
        let ghost before = views(r@);
        r.push(n);
        assert(views(r@) =~= before.push(n@));
        assert(views(ts@).take(i + 1) =~= views(ts@).take(i as int).push(ts@[i as int]@));
        assert(views(ts@).take(i + 1).map_values(|t: Seq<char>| normalize(t)) =~= views(ts@).take(
            i as int,
        ).map_values(|t: Seq<char>| normalize(t)).push(normalize(ts@[i as int]@)));
        i = i + 1;
    }
    assert(views(ts@).take(ts@.len() as int) =~= views(ts@));
    r
}

/// Every element of `a` is in `b`.
fn all_in(a: &Vec<String>, b: &Vec<String>) -> (r: bool)
    ensures
        r == forall|i: int| 0 <= i < a@.len() ==> views(b@).contains(#[trigger] views(a@)[i]),
{
    let mut i: usize = 0;
    while i < a.len()
        invariant
            i <= a@.len(),
            forall|j: int| 0 <= j < i ==> views(b@).contains(#[trigger] views(a@)[j]),
        decreases a.len() - i,
    {
        if !contains_string(b.as_slice(), &a[i]) {
            assert(views(a@)[i as int] == a@[i as int]@);
            return false;
        }
        assert(views(a@)[i as int] == a@[i as int]@);
        i = i + 1;
    }
    true
}

proof fn lemma_to_set_eq(a: Seq<Seq<char>>, b: Seq<Seq<char>>)
    ensures
        a.to_set() == b.to_set() <==> ((forall|i: int| 0 <= i < a.len() ==> b.contains(#[trigger] a[i]))
            && (forall|j: int| 0 <= j < b.len() ==> a.contains(#[trigger] b[j]))),
{
    if (forall|i: int| 0 <= i < a.len() ==> b.contains(#[trigger] a[i])) && (forall|j: int|
        0 <= j < b.len() ==> a.contains(#[trigger] b[j])) {
        assert(a.to_set() =~= b.to_set());
    }
    if a.to_set() == b.to_set() {
        assert forall|i: int| 0 <= i < a.len() implies b.contains(#[trigger] a[i]) by {
            assert(a.to_set().contains(a[i]));
        }
        assert forall|j: int| 0 <= j < b.len() implies a.contains(#[trigger] b[j]) by {
            assert(b.to_set().contains(b[j]));
        }
    }
}

/// `a` and `b` hold the same strings.
fn same_set(a: &Vec<String>, b: &Vec<String>) -> (r: bool)
    ensures
        r == (views(a@).to_set() == views(b@).to_set()),
{
    let x = all_in(a, b);
    let y = all_in(b, a);
    proof {
        lemma_to_set_eq(views(a@), views(b@));
    }
    x && y
}

/// Some string is in every one of `sets`, which is not empty.
fn common_to_all(sets: &Vec<Vec<String>>) -> (r: bool)
    requires
        sets@.len() > 0,
    ensures
        r == have_common(vec_sets(sets@)),
{
    let ghost ss = vec_sets(sets@);
    let first = &sets[0];
    let mut k: usize = 0;
    while k < first.len()
        invariant
            k <= first@.len(),
            sets@.len() > 0,
            first == sets@[0],
            ss == vec_sets(sets@),
            forall|m: int| 0 <= m < k ==> !#[trigger] in_every(ss, views(first@)[m]),
        decreases first.len() - k,
    {
        let ghost t = views(first@)[k as int];
        assert(t == first@[k as int]@);
        let mut j: usize = 1;
        let mut all = true;
        while j < sets.len()
            invariant
                1 <= j <= sets@.len(),
                k < first@.len(),
                first == sets@[0],
                ss == vec_sets(sets@),
                t == views(first@)[k as int],
                t == first@[k as int]@,
                all ==> forall|i: int| 1 <= i < j ==> #[trigger] ss[i].contains(t),
                !all ==> !in_every(ss, t),
            decreases sets.len() - j,
        {
            if all && !contains_string(sets[j].as_slice(), &first[k]) {
                assert(!ss[j as int].contains(t));
                all = false;
            }
            j = j + 1;
        }
        if all {
            assert(ss[0].contains(t)) by {
                assert(views(first@)[k as int] == t);
            }
            assert(in_every(ss, t));
            return true;
        }
        k = k + 1;
    }
    assert forall|t: Seq<char>| !#[trigger] in_every(ss, t) by {
        if in_every(ss, t) {
            assert(ss[0].contains(t));
            assert(views(first@).contains(t));
            let m = choose|m: int| 0 <= m < views(first@).len() && views(first@)[m] == t;
            assert(!in_every(ss, views(first@)[m]));
        }
    }
    false
}

/// Append a note `prefix + team` for each of `ts` not in `valid`; true when any was added.
fn push_missing_notes(notes: &mut Vec<String>, prefix: &str, ts: &[String], valid: &[String]) -> (any:
    bool)
    ensures
        views(final(notes)@) == views(old(notes)@) + missing_notes(prefix@, views(ts@), views(valid@)),
        any == (missing_notes(prefix@, views(ts@), views(valid@)).len() > 0),
{
    let ghost start = views(notes@);
    let mut any = false;
    let mut i: usize = 0;
    assert(views(ts@).take(0) =~= seq![]);
    assert(views(notes@) =~= start + seq![]);
    while i < ts.len()
        invariant
            i <= ts@.len(),
            views(notes@) == start + missing_notes(prefix@, views(ts@).take(i as int), views(valid@)),
            any == (missing_notes(prefix@, views(ts@).take(i as int), views(valid@)).len() > 0),
        decreases ts.len() - i,
    {
        let ghost before = views(notes@);
        assert(views(ts@).take(i + 1).drop_last() =~= views(ts@).take(i as int));
        assert(views(ts@).take(i + 1).last() == ts@[i as int]@);
        if !contains_string(valid, &ts[i]) {
            let mut m = prefix.to_owned();
            m.append(ts[i].as_str());
            notes.push(m);
            assert(views(notes@) =~= before.push(prefix@ + ts@[i as int]@));
            any = true;
        }
        i = i + 1;
    }
    assert(views(ts@).take(ts@.len() as int) =~= views(ts@));
    any
}

/// `r` is what reconciling these inputs gives: the inputs as given, which
/// of the named teams exist, the alignment status and its notes.
pub open spec fn reconciles_to(
    r: RepoOwnership,
    repo_name: Seq<char>,
    pushed_at: Option<i64>,
    cat: Option<Seq<char>>,
    co: Seq<Seq<char>>,
    admin: Seq<Seq<char>>,
    valid: Seq<Seq<char>>,
    strict: bool,
) -> bool {
    &&& r.repo_name@ == repo_name
    &&& r.pushed_at == pushed_at
    &&& string_opt(r.catalog_owner) == cat
    &&& views(r.codeowners_teams@) == co
    &&& views(r.admin_teams@) == admin
    &&& r.catalog_team_exists == match cat {
        Some(c) => Some(valid.contains(c)),
        None => None::<bool>,
    }
    &&& r.codeowners_teams_exist@.len() == co.len()
    &&& forall|i: int|
        0 <= i < co.len() ==> {
            &&& (#[trigger] r.codeowners_teams_exist@[i]).0@ == co[i]
            &&& r.codeowners_teams_exist@[i].1 == valid.contains(co[i])
        }
    &&& (r.alignment, views(r.notes@)) == reconciled(cat, co, admin, valid, strict)
    &&& r.suggested_owners is None
}

/// Reconcile the three ownership signals of one repo.
///
/// Phase 1 (stale detection) checks every referenced team against
/// `valid_teams`; any unknown team makes the repo `Stale`, with a note for
/// each. Phase 2 counts the present sources and compares their normalized
/// team sets: by equality in strict mode, by a common team otherwise.
pub fn reconcile(
    repo_name: &str,
    pushed_at: Option<i64>,
    catalog_owner: Option<&str>,
    codeowners_teams: &[String],
    admin_teams: &[String],
    valid_teams: &[String],
    strict: bool,
) -> (r: RepoOwnership)
    ensures
        r.repo_name@ == repo_name@,
        r.pushed_at == pushed_at,
        string_opt(r.catalog_owner) == str_opt(catalog_owner),
        views(r.codeowners_teams@) == views(codeowners_teams@),
        views(r.admin_teams@) == views(admin_teams@),
        r.catalog_team_exists == match catalog_owner {
            Some(c) => Some(views(valid_teams@).contains(c@)),
            None => None::<bool>,
        },
        r.codeowners_teams_exist@.len() == codeowners_teams@.len(),
        forall|i: int|
            0 <= i < codeowners_teams@.len() ==> {
                &&& (#[trigger] r.codeowners_teams_exist@[i]).0@ == codeowners_teams@[i]@
                &&& r.codeowners_teams_exist@[i].1 == views(valid_teams@).contains(
                    codeowners_teams@[i]@,
                )
            },
        (r.alignment, views(r.notes@)) == reconciled(
            str_opt(catalog_owner),
            views(codeowners_teams@),
            views(admin_teams@),
            views(valid_teams@),
            strict,
        ),
        r.suggested_owners is None,
{
    let ghost cat = str_opt(catalog_owner);
    let ghost co = views(codeowners_teams@);
    let ghost admin = views(admin_teams@);
    let ghost valid = views(valid_teams@);
    let mut notes: Vec<String> = Vec::new();

    // Phase 1 — stale detection
    let catalog_team_exists = match catalog_owner {
        Some(t) => Some(contains_string(valid_teams, &t.to_owned())),
        None => None,
    };
    let mut codeowners_teams_exist: Vec<(String, bool)> = Vec::new();
    let mut i: usize = 0;
    while i < codeowners_teams.len()
        invariant
            i <= codeowners_teams@.len(),
            codeowners_teams_exist@.len() == i,
            valid == views(valid_teams@),
            forall|j: int|
                0 <= j < i ==> {
                    &&& (#[trigger] codeowners_teams_exist@[j]).0@ == codeowners_teams@[j]@
                    &&& codeowners_teams_exist@[j].1 == valid.contains(codeowners_teams@[j]@)
                },
        decreases codeowners_teams.len() - i,
    {
        let exists = contains_string(valid_teams, &codeowners_teams[i]);
        codeowners_teams_exist.push((codeowners_teams[i].clone(), exists));
        i = i + 1;
    }

    let mut any_stale = false;
    match catalog_owner {
        Some(c) => {
            if catalog_team_exists == Some(false) {
                let mut m = "catalog-info.yaml references non-existent team: ".to_owned();
                m.append(c);
                notes.push(m);
                any_stale = true;
            }
        },
        None => {},
    }
    let ghost cat_notes = views(notes@);
    assert(cat_notes =~= match cat {
        Some(c) => if valid.contains(c) {
            seq![]
        } else {
            seq![catalog_missing_prefix() + c]
        },
        None => seq![],
    });
    let co_stale = push_missing_notes(
        &mut notes,
        "CODEOWNERS references non-existent team: ",
        codeowners_teams,
        valid_teams,
    );
    let admin_stale = push_missing_notes(
        &mut notes,
        "Admin team does not exist: ",
        admin_teams,
        valid_teams,
    );
    assert(views(notes@) =~= stale_notes(cat, co, admin, valid));
    any_stale = any_stale || co_stale || admin_stale;

    let catalog_copy = match catalog_owner {
        Some(c) => Some(c.to_owned()),
        None => None,
    };
    let codeowners_copy = clone_strings(codeowners_teams);
    let admin_copy = clone_strings(admin_teams);
    assert(views(codeowners_copy@) =~= co);
    assert(views(admin_copy@) =~= admin);

    if any_stale {
        return RepoOwnership {
            repo_name: repo_name.to_owned(),
            pushed_at,
            catalog_owner: catalog_copy,
            codeowners_teams: codeowners_copy,
            catalog_team_exists,
            codeowners_teams_exist,
            admin_teams: admin_copy,
            alignment: AlignmentStatus::Stale,
            notes,
            suggested_owners: None,
        };
    }

    // Phase 2 — alignment over the present sources
    let has_catalog = catalog_owner.is_some();
    let has_codeowners = codeowners_teams.len() > 0;
    let has_admin = admin_teams.len() > 0;

    let mut present: Vec<Vec<String>> = Vec::new();
    let ghost sets = present_sets(cat, co, admin);
    match catalog_owner {
        Some(c) => {
            let n = normalize_team(c);
            let mut one: Vec<String> = Vec::new();
            one.push(n);
            present.push(one);
            assert(views(present@[0]@) =~= seq![c@].map_values(|t: Seq<char>| normalize(t)));
        },
        None => {},
    }
    let ghost p1 = present@;
    if has_codeowners {
        present.push(normalize_all(codeowners_teams));
    }
    let ghost p2 = present@;
    if has_admin {
        present.push(normalize_all(admin_teams));
    }
    assert(present@.len() == sets.len());
    assert forall|k: int| 0 <= k < present@.len() implies views(
        #[trigger] present@[k]@,
    ).to_set() == sets[k] by {
        if k < p1.len() {
            assert(present@[k] == p1[k]);
        } else if k < p2.len() {
            assert(present@[k] == p2[k]);
        }
    }

    let mut new_notes: Vec<String> = Vec::new();
    let alignment = if present.len() == 0 {
        new_notes.push("No ownership metadata found".to_owned());
        AlignmentStatus::Missing
    } else if present.len() == 1 {
        if has_catalog {
            new_notes.push("Only catalog-info.yaml has ownership".to_owned());
            AlignmentStatus::CatalogOnly
        } else if has_codeowners {
            new_notes.push("Only CODEOWNERS has ownership".to_owned());
            AlignmentStatus::CodeownersOnly
        } else {
            new_notes.push("Only admin team membership has ownership".to_owned());
            AlignmentStatus::AdminOnly
        }
    } else if strict {
        let mut same = true;
        let mut k: usize = 1;
        while k < present.len()
            invariant
                1 <= k <= present@.len(),
                present@.len() == sets.len(),
                forall|m: int|
                    0 <= m < present@.len() ==> views(#[trigger] present@[m]@).to_set() == sets[m],
                same == forall|m: int| 0 <= m < k ==> #[trigger] sets[m] == sets[0],
            decreases present.len() - k,
        {
            let eq = same_set(&present[k], &present[0]);
            same = same && eq;
            k = k + 1;
        }
        if same {
            AlignmentStatus::Aligned
        } else {
            new_notes.push("Sources have different team sets (strict mode)".to_owned());
            AlignmentStatus::Mismatched
        }
    } else {
        let common = common_to_all(&present);
        assert(vec_sets(present@) =~= sets);
        if common {
            AlignmentStatus::Aligned
        } else {
            new_notes.push("No common team across all ownership sources".to_owned());
            AlignmentStatus::Mismatched
        }
    };
    assert(views(notes@) =~= seq![]);
    RepoOwnership {
        repo_name: repo_name.to_owned(),
        pushed_at,
        catalog_owner: catalog_copy,
        codeowners_teams: codeowners_copy,
        catalog_team_exists,
        codeowners_teams_exist,
        admin_teams: admin_copy,
        alignment,
        notes: new_notes,
        suggested_owners: None,
    }
}

proof fn lemma_missing_notes(prefix: Seq<char>, ts: Seq<Seq<char>>, valid: Seq<Seq<char>>)
    ensures
        missing_notes(prefix, ts, valid).len() > 0 <==> exists|i: int|
            0 <= i < ts.len() && !valid.contains(#[trigger] ts[i]),
    decreases ts.len(),
{
    if ts.len() > 0 {
        let prev = ts.drop_last();
        lemma_missing_notes(prefix, prev, valid);
        if exists|i: int| 0 <= i < prev.len() && !valid.contains(#[trigger] prev[i]) {
            let i = choose|i: int| 0 <= i < prev.len() && !valid.contains(#[trigger] prev[i]);
            assert(ts[i] == prev[i]);
        }
        if exists|i: int| 0 <= i < ts.len() && !valid.contains(#[trigger] ts[i]) {
            let i = choose|i: int| 0 <= i < ts.len() && !valid.contains(#[trigger] ts[i]);
            if i < prev.len() {
                assert(prev[i] == ts[i]);
            }
        }
    }
}

/// Stale detection comes first: a repo is `stale` exactly when one of the
/// teams it references (catalog owner, a CODEOWNERS team or an admin team)
/// does not exist in the org, whatever its sources otherwise say and in
/// either mode.
pub proof fn law_stale_exactly_when_a_team_is_unknown(
    cat: Option<Seq<char>>,
    co: Seq<Seq<char>>,
    admin: Seq<Seq<char>>,
    valid: Seq<Seq<char>>,
    strict: bool,
)
    ensures
        reconciled(cat, co, admin, valid, strict).0 == AlignmentStatus::Stale <==> {
            ||| (cat matches Some(c) && !valid.contains(c))
            ||| exists|i: int| 0 <= i < co.len() && !valid.contains(#[trigger] co[i])
            ||| exists|i: int| 0 <= i < admin.len() && !valid.contains(#[trigger] admin[i])
        },
{
    lemma_missing_notes(codeowners_missing_prefix(), co, valid);
    lemma_missing_notes(admin_missing_prefix(), admin, valid);
}

/// Strict mode only ever asks more: a repo that is aligned under `--strict`
/// is aligned under the default intersection mode too.
pub proof fn law_strict_alignment_implies_intersection(
    cat: Option<Seq<char>>,
    co: Seq<Seq<char>>,
    admin: Seq<Seq<char>>,
    valid: Seq<Seq<char>>,
)
    ensures
        reconciled(cat, co, admin, valid, true).0 == AlignmentStatus::Aligned ==> reconciled(
            cat,
            co,
            admin,
            valid,
            false,
        ).0 == AlignmentStatus::Aligned,
{
    let sets = present_sets(cat, co, admin);
    if reconciled(cat, co, admin, valid, true).0 == AlignmentStatus::Aligned {
        assert(sets.len() >= 2);
        assert(all_same(sets));
        // the first present set is not empty: each present source names a team
        let first: Seq<Seq<char>> = if cat is Some {
            seq![cat->0]
        } else if co.len() > 0 {
            co
        } else {
            admin
        };
        assert(sets[0] == norm_set(first));
        let t = normalize(first[0]);
        assert(first.map_values(|t: Seq<char>| normalize(t))[0] == t);
        assert(norm_set(first).contains(t));
        assert forall|i: int| 0 <= i < sets.len() implies #[trigger] sets[i].contains(t) by {
            assert(sets[i] == sets[0]);
        }
        assert(in_every(sets, t));
    }
}

/// The mode matters only when two or more sources are present: with at most
/// one, `--strict` and the default give the same status and notes.
pub proof fn law_mode_irrelevant_below_two_sources(
    cat: Option<Seq<char>>,
    co: Seq<Seq<char>>,
    admin: Seq<Seq<char>>,
    valid: Seq<Seq<char>>,
)
    requires
        present_sets(cat, co, admin).len() < 2,
    ensures
        reconciled(cat, co, admin, valid, true) == reconciled(cat, co, admin, valid, false),
{
}

proof fn lemma_norm_set_by_set(a: Seq<Seq<char>>, b: Seq<Seq<char>>)
    requires
        a.to_set() == b.to_set(),
    ensures
        norm_set(a) == norm_set(b),
        a.len() > 0 <==> b.len() > 0,
{
    let na = a.map_values(|t: Seq<char>| normalize(t));
    let nb = b.map_values(|t: Seq<char>| normalize(t));
    assert forall|x: Seq<char>| na.to_set().contains(x) implies nb.to_set().contains(x) by {
        let i = choose|i: int| 0 <= i < na.len() && na[i] == x;
        assert(a.to_set().contains(a[i]));
        assert(b.to_set().contains(a[i]));
        let j = choose|j: int| 0 <= j < b.len() && b[j] == a[i];
        assert(nb[j] == x);
    }
    assert forall|x: Seq<char>| nb.to_set().contains(x) implies na.to_set().contains(x) by {
        let j = choose|j: int| 0 <= j < nb.len() && nb[j] == x;
        assert(b.to_set().contains(b[j]));
        assert(a.to_set().contains(b[j]));
        let i = choose|i: int| 0 <= i < a.len() && a[i] == b[j];
        assert(na[i] == x);
    }
    assert(na.to_set() =~= nb.to_set());
    if a.len() > 0 {
        assert(a.to_set().contains(a[0]));
        assert(b.to_set().contains(a[0]));
    }
    if b.len() > 0 {
        assert(b.to_set().contains(b[0]));
        assert(a.to_set().contains(b[0]));
    }
}

/// The status depends on each source's teams only as a set, and on the
/// org's teams only as a set: listing a team twice or in another order
/// changes no status.
pub proof fn law_status_depends_on_team_sets(
    cat: Option<Seq<char>>,
    co1: Seq<Seq<char>>,
    co2: Seq<Seq<char>>,
    admin1: Seq<Seq<char>>,
    admin2: Seq<Seq<char>>,
    valid1: Seq<Seq<char>>,
    valid2: Seq<Seq<char>>,
    strict: bool,
)
    requires
        co1.to_set() == co2.to_set(),
        admin1.to_set() == admin2.to_set(),
        valid1.to_set() == valid2.to_set(),
    ensures
        reconciled(cat, co1, admin1, valid1, strict).0 == reconciled(
            cat,
            co2,
            admin2,
            valid2,
            strict,
        ).0,
{
    law_stale_exactly_when_a_team_is_unknown(cat, co1, admin1, valid1, strict);
    law_stale_exactly_when_a_team_is_unknown(cat, co2, admin2, valid2, strict);
    lemma_norm_set_by_set(co1, co2);
    lemma_norm_set_by_set(admin1, admin2);
    assert forall|t: Seq<char>| valid1.contains(t) <==> valid2.contains(t) by {
        assert(valid1.to_set().contains(t) == valid1.contains(t));
        assert(valid2.to_set().contains(t) == valid2.contains(t));
    }
    assert((exists|i: int| 0 <= i < co1.len() && !valid1.contains(#[trigger] co1[i])) <==> (exists|i: int|
        0 <= i < co2.len() && !valid2.contains(#[trigger] co2[i]))) by {
        if exists|i: int| 0 <= i < co1.len() && !valid1.contains(#[trigger] co1[i]) {
            let i = choose|i: int| 0 <= i < co1.len() && !valid1.contains(#[trigger] co1[i]);
            assert(co1.to_set().contains(co1[i]));
            assert(co2.to_set().contains(co1[i]));
            let j = choose|j: int| 0 <= j < co2.len() && co2[j] == co1[i];
            assert(!valid2.contains(co2[j]));
        }
        if exists|i: int| 0 <= i < co2.len() && !valid2.contains(#[trigger] co2[i]) {
            let i = choose|i: int| 0 <= i < co2.len() && !valid2.contains(#[trigger] co2[i]);
            assert(co2.to_set().contains(co2[i]));
            assert(co1.to_set().contains(co2[i]));
            let j = choose|j: int| 0 <= j < co1.len() && co1[j] == co2[i];
            assert(!valid1.contains(co1[j]));
        }
    }
    assert((exists|i: int| 0 <= i < admin1.len() && !valid1.contains(#[trigger] admin1[i])) <==> (exists|
        i: int,
    | 0 <= i < admin2.len() && !valid2.contains(#[trigger] admin2[i]))) by {
        if exists|i: int| 0 <= i < admin1.len() && !valid1.contains(#[trigger] admin1[i]) {
            let i = choose|i: int| 0 <= i < admin1.len() && !valid1.contains(#[trigger] admin1[i]);
            assert(admin1.to_set().contains(admin1[i]));
            assert(admin2.to_set().contains(admin1[i]));
            let j = choose|j: int| 0 <= j < admin2.len() && admin2[j] == admin1[i];
            assert(!valid2.contains(admin2[j]));
        }
        if exists|i: int| 0 <= i < admin2.len() && !valid2.contains(#[trigger] admin2[i]) {
            let i = choose|i: int| 0 <= i < admin2.len() && !valid2.contains(#[trigger] admin2[i]);
            assert(admin2.to_set().contains(admin2[i]));
            assert(admin1.to_set().contains(admin2[i]));
            let j = choose|j: int| 0 <= j < admin1.len() && admin1[j] == admin2[i];
            assert(!valid1.contains(admin1[j]));
        }
    }
    assert(present_sets(cat, co1, admin1) =~= present_sets(cat, co2, admin2));
}

proof fn lemma_norm_set_contains(ts: Seq<Seq<char>>, t: Seq<char>)
    ensures
        norm_set(ts).contains(t) <==> exists|i: int| 0 <= i < ts.len() && normalize(#[trigger] ts[i]) == t,
{
    let m = ts.map_values(|x: Seq<char>| normalize(x));
    if norm_set(ts).contains(t) {
        assert(m.contains(t));
        let i = choose|i: int| 0 <= i < m.len() && m[i] == t;
        assert(normalize(ts[i]) == t);
    }
    if exists|i: int| 0 <= i < ts.len() && normalize(#[trigger] ts[i]) == t {
        let i = choose|i: int| 0 <= i < ts.len() && normalize(#[trigger] ts[i]) == t;
        assert(m[i] == t);
        assert(m.contains(t));
    }
}

/// `t` is named by every source that is present: it is the catalog owner's
/// team (when there is one), one of the CODEOWNERS teams (when there are
/// any) and one of the admin teams (when there are any), all normalized.
pub open spec fn named_by_every_source(
    cat: Option<Seq<char>>,
    co: Seq<Seq<char>>,
    admin: Seq<Seq<char>>,
    t: Seq<char>,
) -> bool {
    &&& (cat matches Some(c) ==> normalize(c) == t)
    &&& (co.len() > 0 ==> exists|i: int| 0 <= i < co.len() && normalize(#[trigger] co[i]) == t)
    &&& (admin.len() > 0 ==> exists|i: int| 0 <= i < admin.len() && normalize(#[trigger] admin[i]) == t)
}

proof fn lemma_in_every_present(cat: Option<Seq<char>>, co: Seq<Seq<char>>, admin: Seq<Seq<char>>, t: Seq<char>)
    ensures
        in_every(present_sets(cat, co, admin), t) <==> named_by_every_source(cat, co, admin, t),
{
    let a: Seq<Set<Seq<char>>> = match cat {
        Some(c) => seq![norm_set(seq![c])],
        None => seq![],
    };
    let b: Seq<Set<Seq<char>>> = if co.len() > 0 { seq![norm_set(co)] } else { seq![] };
    let d: Seq<Set<Seq<char>>> = if admin.len() > 0 { seq![norm_set(admin)] } else { seq![] };
    let sets = present_sets(cat, co, admin);
    assert(sets == a + b + d);
    lemma_norm_set_contains(co, t);
    lemma_norm_set_contains(admin, t);
    if let Some(c) = cat {
        lemma_norm_set_contains(seq![c], t);
        if norm_set(seq![c]).contains(t) {
            let i = choose|i: int| 0 <= i < 1 && normalize(#[trigger] seq![c][i]) == t;
            assert(seq![c][i] == c);
        }
        if normalize(c) == t {
            assert(normalize(seq![c][0]) == t);
        }
    }
    if in_every(sets, t) {
        if cat is Some {
            assert(sets[0] == a[0]);
        }
        if co.len() > 0 {
            assert(sets[a.len() as int] == b[0]);
        }
        if admin.len() > 0 {
            assert(sets[(a.len() + b.len()) as int] == d[0]);
        }
    }
    if named_by_every_source(cat, co, admin, t) {
        assert forall|i: int| 0 <= i < sets.len() implies #[trigger] sets[i].contains(t) by {
            if i < a.len() {
                assert(sets[i] == a[i]);
            } else if i < a.len() + b.len() {
                assert(sets[i] == b[i - a.len()]);
            } else {
                assert(sets[i] == d[i - a.len() - b.len()]);
            }
        }
    }
}

/// In the default mode, when every named team exists and two or more
/// sources are present, a repo is aligned exactly when some normalized team
/// is named by every present source (catalog, CODEOWNERS and admin alike),
/// and mismatched otherwise.
pub proof fn law_aligned_exactly_when_every_source_names_a_team(
    cat: Option<Seq<char>>,
    co: Seq<Seq<char>>,
    admin: Seq<Seq<char>>,
    valid: Seq<Seq<char>>,
)
    requires
        cat matches Some(c) ==> valid.contains(c),
        forall|i: int| 0 <= i < co.len() ==> valid.contains(#[trigger] co[i]),
        forall|i: int| 0 <= i < admin.len() ==> valid.contains(#[trigger] admin[i]),
        (if cat is Some { 1int } else { 0int }) + (if co.len() > 0 { 1int } else { 0int }) + (if admin.len()
            > 0 { 1int } else { 0int }) >= 2,
    ensures
        reconciled(cat, co, admin, valid, false).0 == AlignmentStatus::Aligned <==> exists|t: Seq<char>|
            #[trigger] named_by_every_source(cat, co, admin, t),
        reconciled(cat, co, admin, valid, false).0 == AlignmentStatus::Aligned || reconciled(
            cat,
            co,
            admin,
            valid,
            false,
        ).0 == AlignmentStatus::Mismatched,
{
    law_stale_exactly_when_a_team_is_unknown(cat, co, admin, valid, false);
    let sets = present_sets(cat, co, admin);
    assert(sets.len() >= 2);
    if have_common(sets) {
        let t = choose|t: Seq<char>| #[trigger] in_every(sets, t);
        lemma_in_every_present(cat, co, admin, t);
        assert(named_by_every_source(cat, co, admin, t));
    }
    if exists|t: Seq<char>| #[trigger] named_by_every_source(cat, co, admin, t) {
        let t = choose|t: Seq<char>| #[trigger] named_by_every_source(cat, co, admin, t);
        lemma_in_every_present(cat, co, admin, t);
        assert(in_every(sets, t));
    }
}

} // verus!
