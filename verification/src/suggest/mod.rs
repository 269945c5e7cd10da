//! Ranking teams as likely owners of a repo by their members' recent activity.
pub mod types;

use vstd::prelude::*;

use crate::text::{clone_strings, contains_string, lemma_lex_total, lemma_lex_trans, lemma_lex_irrefl, lex_lt, string_lt, views};
use types::{SuggestionResult, SuggestionView, TeamSuggestion};

verus! {

/// Activity counts per user, as plain values.
pub type Counts = Seq<(Seq<char>, nat)>;

/// Team memberships, as plain values: team slug and member logins.
pub type Teams = Seq<(Seq<char>, Seq<Seq<char>>)>;

pub open spec fn count_views(v: Seq<(String, usize)>) -> Counts {
    v.map_values(|p: (String, usize)| (p.0@, p.1 as nat))
}

pub open spec fn team_views(v: Seq<(String, Vec<String>)>) -> Teams {
    v.map_values(|p: (String, Vec<String>)| (p.0@, views(p.1@)))
}

pub open spec fn count_keys(m: Counts) -> Seq<Seq<char>> {
    m.map_values(|p: (Seq<char>, nat)| p.0)
}

pub open spec fn team_keys(m: Teams) -> Seq<Seq<char>> {
    m.map_values(|p: (Seq<char>, Seq<Seq<char>>)| p.0)
}

/// The count recorded for `user`; 0 when there is none.
pub open spec fn lookup(m: Counts, user: Seq<char>) -> nat
    decreases m.len(),
{
    if m.len() == 0 {
        0
    } else if m[0].0 == user {
        m[0].1
    } else {
        lookup(m.drop_first(), user)
    }
}

/// The counts of the users in `members`, added up (a login listed twice counts twice).
pub open spec fn sum_over(members: Seq<Seq<char>>, m: Counts) -> nat
    decreases members.len(),
{
    if members.len() == 0 {
        0
    } else {
        sum_over(members.drop_last(), m) + lookup(m, members.last())
    }
}

/// The elements of `xs` that `seen` lacks, in order.
pub open spec fn not_in(xs: Seq<Seq<char>>, seen: Seq<Seq<char>>) -> Seq<Seq<char>>
    decreases xs.len(),
{
    if xs.len() == 0 {
        seq![]
    } else if seen.contains(xs.last()) {
        not_in(xs.drop_last(), seen)
    } else {
        not_in(xs.drop_last(), seen).push(xs.last())
    }
}

/// Everyone with recorded activity: the commit authors, then the people
/// with reviews but no commit.
pub open spec fn contributors(commits: Counts, reviews: Counts) -> Seq<Seq<char>> {
    count_keys(commits) + not_in(count_keys(reviews), count_keys(commits))
}

/// The elements of `xs` that `members` holds, in order.
pub open spec fn among(xs: Seq<Seq<char>>, members: Seq<Seq<char>>) -> Seq<Seq<char>>
    decreases xs.len(),
{
    if xs.len() == 0 {
        seq![]
    } else if members.contains(xs.last()) {
        among(xs.drop_last(), members).push(xs.last())
    } else {
        among(xs.drop_last(), members)
    }
}

/// `user` is a member of some team.
pub open spec fn in_some_team(tm: Teams, user: Seq<char>) -> bool {
    exists|i: int| 0 <= i < tm.len() && (#[trigger] tm[i]).1.contains(user)
}

/// The contributors that belong to no team, in order.
pub open spec fn teamless(xs: Seq<Seq<char>>, tm: Teams) -> Seq<Seq<char>>
    decreases xs.len(),
{
    if xs.len() == 0 {
        seq![]
    } else if in_some_team(tm, xs.last()) {
        teamless(xs.drop_last(), tm)
    } else {
        teamless(xs.drop_last(), tm).push(xs.last())
    }
}

/// The suggestion a team makes: its members' commits and reviews, and its
/// members among the contributors; none when no contributor is a member or
/// the team has no activity.
pub open spec fn team_candidate(
    team: (Seq<char>, Seq<Seq<char>>),
    contribs: Seq<Seq<char>>,
    commits: Counts,
    reviews: Counts,
) -> Option<SuggestionView> {
    let c = sum_over(team.1, commits);
    let r = sum_over(team.1, reviews);
    let active = among(contribs, team.1);
    if active.len() > 0 && (c > 0 || r > 0) {
        Some((team.0, c, r, active))
    } else {
        None
    }
}

/// The suggestions of all teams with activity, in team order.
pub open spec fn candidates(tm: Teams, contribs: Seq<Seq<char>>, commits: Counts, reviews: Counts) -> Seq<
    SuggestionView,
>
    decreases tm.len(),
{
    if tm.len() == 0 {
        seq![]
    } else {
        let rest = candidates(tm.drop_last(), contribs, commits, reviews);
        match team_candidate(tm.last(), contribs, commits, reviews) {
            Some(s) => rest.push(s),
            None => rest,
        }
    }
}

/// `a` ranks at least as high as `b`: more total activity, or as much and at
/// least as many active members.
pub open spec fn ranks_at_least(a: SuggestionView, b: SuggestionView) -> bool {
    a.1 + a.2 > b.1 + b.2 || (a.1 + a.2 == b.1 + b.2 && a.3.len() >= b.3.len())
}

/// `r` is the best `limit` of `cands`, best first: each from `cands`, no two
/// alike, each ranked at least as high as those after it and as every
/// candidate left out.
pub open spec fn is_top(r: Seq<SuggestionView>, cands: Seq<SuggestionView>, limit: nat) -> bool {
    &&& r.len() == if cands.len() < limit {
        cands.len()
    } else {
        limit
    }
    &&& forall|i: int| 0 <= i < r.len() ==> cands.contains(#[trigger] r[i])
    &&& cands.no_duplicates() ==> r.no_duplicates()
    &&& forall|i: int, j: int| 0 <= i < j < r.len() ==> ranks_at_least(#[trigger] r[i], #[trigger] r[j])
    &&& forall|j: int|
        0 <= j < cands.len() && !r.contains(#[trigger] cands[j]) ==> forall|i: int|
            0 <= i < r.len() ==> ranks_at_least(#[trigger] r[i], cands[j])
}

pub open spec fn suggestion_views(v: Seq<TeamSuggestion>) -> Seq<SuggestionView> {
    v.map_values(|s: TeamSuggestion| s@)
}

impl TeamSuggestion {
    /// A copy of the suggestion.
    pub fn copy(&self) -> (r: TeamSuggestion)
        ensures
            r@ == self@,
    {
        TeamSuggestion {
            team: self.team.clone(),
            commits: self.commits,
            reviews: self.reviews,
            members: clone_strings(self.members.as_slice()),
        }
    }
}

/// The count `m` records for `user`; 0 when it records none.
fn count_for(m: &[(String, usize)], user: &String) -> (c: usize)
    ensures
        c == lookup(count_views(m@), user@),
{
    let ghost cm = count_views(m@);
    let mut i: usize = 0;
    assert(cm.skip(0) =~= cm);
    while i < m.len()
        invariant
            i <= m@.len(),
            cm == count_views(m@),
            lookup(cm, user@) == lookup(cm.skip(i as int), user@),
        decreases m.len() - i,
    {
        assert(cm.skip(i as int)[0] == (m@[i as int].0@, m@[i as int].1 as nat));
        if m[i].0.eq(user) {
            return m[i].1;
        }
        assert(cm.skip(i as int).drop_first() =~= cm.skip(i + 1));
        i = i + 1;
    }
    0
}

proof fn lemma_sum_prefix(members: Seq<Seq<char>>, m: Counts, i: int)
    requires
        0 <= i <= members.len(),
    ensures
        sum_over(members.take(i), m) <= sum_over(members, m),
    decreases members.len(),
{
    if i < members.len() {
        assert(members.drop_last().take(i) =~= members.take(i));
        lemma_sum_prefix(members.drop_last(), m, i);
    } else {
        assert(members.take(i) =~= members);
    }
}

/// The counts of `members` added up.
fn sum_counts(members: &Vec<String>, m: &[(String, usize)]) -> (s: usize)
    requires
        sum_over(views(members@), count_views(m@)) <= usize::MAX,
    ensures
        s == sum_over(views(members@), count_views(m@)),
{
    let ghost ms = views(members@);
    let ghost cm = count_views(m@);
    let mut s: usize = 0;
    let mut i: usize = 0;
    assert(ms.take(0) =~= seq![]);
    while i < members.len()
        invariant
            i <= members@.len(),
            ms == views(members@),
            cm == count_views(m@),
            sum_over(ms, cm) <= usize::MAX,
            s == sum_over(ms.take(i as int), cm),
        decreases members.len() - i,
    {
        assert(ms.take(i + 1).drop_last() =~= ms.take(i as int));
        assert(ms.take(i + 1).last() == members@[i as int]@);
        proof {
            lemma_sum_prefix(ms, cm, i + 1);
        }
        let c = count_for(m, &members[i]);
        s = s + c;
        i = i + 1;
    }
    assert(ms.take(members@.len() as int) =~= ms);
    s
}

/// The logins of `m`, in order.
fn keys_of(m: &[(String, usize)]) -> (r: Vec<String>)
    ensures
        views(r@) == count_keys(count_views(m@)),
{
    let mut r: Vec<String> = Vec::new();
    let mut i: usize = 0;
    while i < m.len()
        invariant
            i <= m@.len(),
            views(r@) =~= count_keys(count_views(m@)).take(i as int),
        decreases m.len() - i,
    {
        let ghost before = views(r@);
        r.push(m[i].0.clone());
        assert(views(r@) =~= before.push(m@[i as int].0@));
        i = i + 1;
    }
    r
}

/// Everyone with recorded activity: the commit authors, then the people with reviews but no commit.
fn contributors_of(commits: &[(String, usize)], reviews: &[(String, usize)]) -> (r: Vec<String>)
    ensures
        views(r@) == contributors(count_views(commits@), count_views(reviews@)),
{
    let authors = keys_of(commits);
    let reviewers = keys_of(reviews);
    let ghost rk = views(reviewers@);
    let ghost ak = views(authors@);
    let mut r = clone_strings(authors.as_slice());
    let mut i: usize = 0;
    assert(rk.take(0) =~= seq![]);
    assert(views(r@) =~= ak + not_in(rk.take(0), ak));
    while i < reviewers.len()
        invariant
            i <= reviewers@.len(),
            rk == views(reviewers@),
            ak == views(authors@),
            views(r@) == ak + not_in(rk.take(i as int), ak),
        decreases reviewers.len() - i,
    {
        assert(rk.take(i + 1).drop_last() =~= rk.take(i as int));
        assert(rk.take(i + 1).last() == reviewers@[i as int]@);
        if !contains_string(authors.as_slice(), &reviewers[i]) {
            let ghost before = views(r@);
            r.push(reviewers[i].clone());
            assert(views(r@) =~= before.push(reviewers@[i as int]@));
        }
        i = i + 1;
    }
    assert(rk.take(reviewers@.len() as int) =~= rk);
    r
}

/// The elements of `xs` that `members` holds, in order.
fn members_among(xs: &Vec<String>, members: &Vec<String>) -> (r: Vec<String>)
    ensures
        views(r@) == among(views(xs@), views(members@)),
{
    let ghost xv = views(xs@);
    let mut r: Vec<String> = Vec::new();
    let mut i: usize = 0;
    assert(xv.take(0) =~= seq![]);
    assert(views(r@) =~= seq![]);
    while i < xs.len()
        invariant
            i <= xs@.len(),
            xv == views(xs@),
            views(r@) == among(xv.take(i as int), views(members@)),
        decreases xs.len() - i,
    {
        assert(xv.take(i + 1).drop_last() =~= xv.take(i as int));
        assert(xv.take(i + 1).last() == xs@[i as int]@);
        if contains_string(members.as_slice(), &xs[i]) {
            let ghost before = views(r@);
            r.push(xs[i].clone());
            assert(views(r@) =~= before.push(xs@[i as int]@));
        }
        i = i + 1;
    }
    assert(xv.take(xs@.len() as int) =~= xv);
    r
}

/// `user` is a member of some team of `tm`.
fn member_of_any(tm: &[(String, Vec<String>)], user: &String) -> (b: bool)
    ensures
        b == in_some_team(team_views(tm@), user@),
{
    let ghost tv = team_views(tm@);
    let mut i: usize = 0;
    while i < tm.len()
        invariant
            i <= tm@.len(),
            tv == team_views(tm@),
            forall|j: int| 0 <= j < i ==> !(#[trigger] tv[j]).1.contains(user@),
        decreases tm.len() - i,
    {
        assert(tv[i as int].1 == views(tm@[i as int].1@));
        if contains_string(tm[i].1.as_slice(), user) {
            assert(tv[i as int].1.contains(user@));
            return true;
        }
        i = i + 1;
    }
    false
}

/// The elements of `xs` that belong to no team, in order.
fn without_team(xs: &Vec<String>, tm: &[(String, Vec<String>)]) -> (r: Vec<String>)
    ensures
        views(r@) == teamless(views(xs@), team_views(tm@)),
{
    let ghost xv = views(xs@);
    let mut r: Vec<String> = Vec::new();
    let mut i: usize = 0;
    assert(xv.take(0) =~= seq![]);
    assert(views(r@) =~= seq![]);
    while i < xs.len()
        invariant
            i <= xs@.len(),
            xv == views(xs@),
            views(r@) == teamless(xv.take(i as int), team_views(tm@)),
        decreases xs.len() - i,
    {
        assert(xv.take(i + 1).drop_last() =~= xv.take(i as int));
        assert(xv.take(i + 1).last() == xs@[i as int]@);
        if !member_of_any(tm, &xs[i]) {
            let ghost before = views(r@);
            r.push(xs[i].clone());
            assert(views(r@) =~= before.push(xs@[i as int]@));
        }
        i = i + 1;
    }
    assert(xv.take(xs@.len() as int) =~= xv);
    r
}

/// The candidates for a repo: one per team with activity among its members.
pub open spec fn activity_candidates(
    team_members: Seq<(String, Vec<String>)>,
    commits: Seq<(String, usize)>,
    reviews: Seq<(String, usize)>,
) -> Seq<SuggestionView> {
    let cm = count_views(commits);
    let rm = count_views(reviews);
    candidates(team_views(team_members), contributors(cm, rm), cm, rm)
}

/// The contributors to a repo that belong to no team.
pub open spec fn unresolved_contributors(
    team_members: Seq<(String, Vec<String>)>,
    commits: Seq<(String, usize)>,
    reviews: Seq<(String, usize)>,
) -> Seq<Seq<char>> {
    teamless(contributors(count_views(commits), count_views(reviews)), team_views(team_members))
}

/// The inputs of [`score_teams`] are maps, each login or team listed once,
/// and no team's commit and review counts together exceed `usize::MAX`.
pub open spec fn scoring_inputs_ok(
    team_members: Seq<(String, Vec<String>)>,
    commits: Seq<(String, usize)>,
    reviews: Seq<(String, usize)>,
) -> bool {
    &&& team_keys(team_views(team_members)).no_duplicates()
    &&& count_keys(count_views(commits)).no_duplicates()
    &&& count_keys(count_views(reviews)).no_duplicates()
    &&& forall|i: int|
        0 <= i < team_members.len() ==> sum_over(
            views((#[trigger] team_members[i]).1@),
            count_views(commits),
        ) + sum_over(views(team_members[i].1@), count_views(reviews)) <= usize::MAX
}

proof fn lemma_candidates_distinct(tm: Teams, contribs: Seq<Seq<char>>, cm: Counts, rm: Counts)
    ensures
        forall|i: int|
            0 <= i < candidates(tm, contribs, cm, rm).len() ==> team_keys(tm).contains(
                (#[trigger] candidates(tm, contribs, cm, rm)[i]).0,
            ),
        team_keys(tm).no_duplicates() ==> candidates(tm, contribs, cm, rm).no_duplicates(),
    decreases tm.len(),
{
    if tm.len() > 0 {
        let prev = tm.drop_last();
        lemma_candidates_distinct(prev, contribs, cm, rm);
        assert(team_keys(prev) =~= team_keys(tm).drop_last());
        let rest = candidates(prev, contribs, cm, rm);
        let all = candidates(tm, contribs, cm, rm);
        assert forall|i: int| 0 <= i < all.len() implies team_keys(tm).contains(
            (#[trigger] all[i]).0,
        ) by {
            if i < rest.len() {
                assert(all[i] == rest[i]);
                let k = choose|k: int| 0 <= k < team_keys(prev).len() && team_keys(prev)[k] == rest[i].0;
                assert(team_keys(tm)[k] == rest[i].0);
            } else {
                assert(all[i].0 == tm.last().0);
                assert(team_keys(tm)[tm.len() - 1] == tm.last().0);
            }
        }
        if team_keys(tm).no_duplicates() {
            assert forall|i: int| 0 <= i < team_keys(prev).len() implies team_keys(prev)[i] != tm.last().0 by {
                assert(team_keys(tm)[i] == team_keys(prev)[i]);
                assert(team_keys(tm)[tm.len() - 1] == tm.last().0);
            }
            if all.len() > rest.len() {
                assert forall|i: int, j: int| 0 <= i < all.len() && 0 <= j < all.len() && i != j implies all[i]
                    != all[j] by {
                    if i < rest.len() && j < rest.len() {
                        assert(all[i] == rest[i]);
                        assert(all[j] == rest[j]);
                    } else if i < rest.len() {
                        assert(all[i] == rest[i]);
                        assert(team_keys(prev).contains(rest[i].0));
                    } else {
                        assert(all[j] == rest[j]);
                        assert(team_keys(prev).contains(rest[j].0));
                    }
                }
            } else {
                assert(all =~= rest);
            }
        }
    }
}

proof fn lemma_not_in(xs: Seq<Seq<char>>, seen: Seq<Seq<char>>)
    ensures
        forall|i: int|
            0 <= i < not_in(xs, seen).len() ==> xs.contains(#[trigger] not_in(xs, seen)[i])
                && !seen.contains(not_in(xs, seen)[i]),
        xs.no_duplicates() ==> not_in(xs, seen).no_duplicates(),
    decreases xs.len(),
{
    if xs.len() > 0 {
        let prev = xs.drop_last();
        lemma_not_in(prev, seen);
        let r = not_in(prev, seen);
        let all = not_in(xs, seen);
        assert forall|i: int| 0 <= i < all.len() implies xs.contains(#[trigger] all[i]) && !seen.contains(
            all[i],
        ) by {
            if i < r.len() {
                assert(all[i] == r[i]);
                let k = choose|k: int| 0 <= k < prev.len() && prev[k] == r[i];
                assert(xs[k] == r[i]);
            } else {
                assert(xs[xs.len() - 1] == all[i]);
            }
        }
        if xs.no_duplicates() {
            assert(prev.no_duplicates()) by {
                assert forall|a: int, b: int| 0 <= a < prev.len() && 0 <= b < prev.len() && a != b implies prev[a]
                    != prev[b] by {
                    assert(prev[a] == xs[a]);
                    assert(prev[b] == xs[b]);
                }
            }
            assert(!prev.contains(xs.last())) by {
                if prev.contains(xs.last()) {
                    let k = choose|k: int| 0 <= k < prev.len() && prev[k] == xs.last();
                    assert(xs[k] == xs[xs.len() - 1]);
                }
            }
            if all.len() > r.len() {
                assert forall|a: int, b: int| 0 <= a < all.len() && 0 <= b < all.len() && a != b implies all[a]
                    != all[b] by {
                    if a < r.len() && b < r.len() {
                        assert(all[a] == r[a]);
                        assert(all[b] == r[b]);
                    } else if a < r.len() {
                        assert(all[a] == r[a]);
                        assert(prev.contains(r[a]));
                    } else {
                        assert(all[b] == r[b]);
                        assert(prev.contains(r[b]));
                    }
                }
            } else {
                assert(all =~= r);
            }
        }
    }
}

proof fn lemma_teamless(xs: Seq<Seq<char>>, tm: Teams)
    ensures
        forall|i: int| 0 <= i < teamless(xs, tm).len() ==> xs.contains(#[trigger] teamless(xs, tm)[i]),
        xs.no_duplicates() ==> teamless(xs, tm).no_duplicates(),
    decreases xs.len(),
{
    if xs.len() > 0 {
        let prev = xs.drop_last();
        lemma_teamless(prev, tm);
        let r = teamless(prev, tm);
        let all = teamless(xs, tm);
        assert forall|i: int| 0 <= i < all.len() implies xs.contains(#[trigger] all[i]) by {
            if i < r.len() {
                assert(all[i] == r[i]);
                let k = choose|k: int| 0 <= k < prev.len() && prev[k] == r[i];
                assert(xs[k] == r[i]);
            } else {
                assert(xs[xs.len() - 1] == all[i]);
            }
        }
        if xs.no_duplicates() {
            assert(prev.no_duplicates()) by {
                assert forall|a: int, b: int| 0 <= a < prev.len() && 0 <= b < prev.len() && a != b implies prev[a]
                    != prev[b] by {
                    assert(prev[a] == xs[a]);
                    assert(prev[b] == xs[b]);
                }
            }
            assert(!prev.contains(xs.last())) by {
                if prev.contains(xs.last()) {
                    let k = choose|k: int| 0 <= k < prev.len() && prev[k] == xs.last();
                    assert(xs[k] == xs[xs.len() - 1]);
                }
            }
            if all.len() > r.len() {
                assert forall|a: int, b: int| 0 <= a < all.len() && 0 <= b < all.len() && a != b implies all[a]
                    != all[b] by {
                    if a < r.len() && b < r.len() {
                        assert(all[a] == r[a]);
                        assert(all[b] == r[b]);
                    } else if a < r.len() {
                        assert(all[a] == r[a]);
                        assert(prev.contains(r[a]));
                    } else {
                        assert(all[b] == r[b]);
                        assert(prev.contains(r[b]));
                    }
                }
            } else {
                assert(all =~= r);
            }
        }
    }
}

proof fn lemma_contributors_distinct(cm: Counts, rm: Counts)
    requires
        count_keys(cm).no_duplicates(),
        count_keys(rm).no_duplicates(),
    ensures
        contributors(cm, rm).no_duplicates(),
{
    let a = count_keys(cm);
    let b = not_in(count_keys(rm), a);
    lemma_not_in(count_keys(rm), a);
    let all = contributors(cm, rm);
    assert forall|i: int, j: int| 0 <= i < all.len() && 0 <= j < all.len() && i != j implies all[i]
        != all[j] by {
        if i < a.len() && j < a.len() {
        } else if i < a.len() {
            assert(all[j] == b[j - a.len()]);
            assert(a.contains(all[i]));
        } else if j < a.len() {
            assert(all[i] == b[i - a.len()]);
            assert(a.contains(all[j]));
        } else {
            assert(all[i] == b[i - a.len()]);
            assert(all[j] == b[j - a.len()]);
        }
    }
}

/// `a` ranks at least as high as `b`.
fn ranks_at_least_exec(a: &TeamSuggestion, b: &TeamSuggestion) -> (r: bool)
    requires
        a.commits + a.reviews <= usize::MAX,
        b.commits + b.reviews <= usize::MAX,
    ensures
        r == ranks_at_least(a@, b@),
{
    let ta = a.commits + a.reviews;
    let tb = b.commits + b.reviews;
    ta > tb || (ta == tb && a.members.len() >= b.members.len())
}

/// The best `limit` of `cands`, best first; among equals the earlier comes first.
fn top_ranked(cands: &Vec<TeamSuggestion>, limit: usize) -> (r: Vec<TeamSuggestion>)
    requires
        forall|i: int| 0 <= i < cands@.len() ==> #[trigger] cands@[i].commits + cands@[i].reviews
            <= usize::MAX,
    ensures
        is_top(suggestion_views(r@), suggestion_views(cands@), limit as nat),
        forall|i: int| 0 <= i < r@.len() ==> #[trigger] r@[i].commits + r@[i].reviews <= usize::MAX,
{
    let n = cands.len();
    let ghost cv = suggestion_views(cands@);
    let mut taken: Vec<bool> = Vec::new();
    let mut t: usize = 0;
    while t < n
        invariant
            t <= n == cands@.len(),
            taken@.len() == t,
            forall|j: int| 0 <= j < t ==> !taken@[j],
        decreases n - t,
    {
        taken.push(false);
        t = t + 1;
    }
    let mut r: Vec<TeamSuggestion> = Vec::new();
    let ghost mut idx: Seq<int> = seq![];
    let goal = if n < limit {
        n
    } else {
        limit
    };
    while r.len() < goal
        invariant
            n == cands@.len(),
            cv == suggestion_views(cands@),
            goal <= n,
            goal == if n < limit { n } else { limit },
            forall|i: int| 0 <= i < cands@.len() ==> #[trigger] cands@[i].commits
                + cands@[i].reviews <= usize::MAX,
            taken@.len() == n,
            r@.len() == idx.len() <= goal,
            forall|a: int| 0 <= a < idx.len() ==> 0 <= #[trigger] idx[a] < n,
            forall|a: int| 0 <= a < idx.len() ==> r@[a]@ == cv[#[trigger] idx[a]],
            forall|a: int| 0 <= a < idx.len() ==> r@[a].commits + r@[a].reviews <= usize::MAX,
            forall|a: int, b: int| 0 <= a < b < idx.len() ==> #[trigger] idx[a] != #[trigger] idx[b],
            forall|j: int| 0 <= j < n ==> (#[trigger] taken@[j] <==> idx.contains(j)),
            forall|a: int, b: int|
                0 <= a < b < idx.len() ==> ranks_at_least(#[trigger] r@[a]@, #[trigger] r@[b]@),
            forall|a: int, j: int|
                0 <= a < idx.len() && 0 <= j < n && !taken@[j] ==> ranks_at_least(
                    #[trigger] r@[a]@,
                    #[trigger] cv[j],
                ),
        decreases goal - r@.len(),
    {
        // there is an untaken candidate, since fewer than n are taken
        proof {
            if forall|j: int| 0 <= j < n ==> #[trigger] taken@[j] {
                assert forall|j: int| 0 <= j < n implies idx.contains(j) by {
                    assert(taken@[j]);
                }
                lemma_distinct_cover(idx, n as int);
                assert(false);
            }
        }
        let mut best: usize = n;
        let mut j: usize = 0;
        while j < n
            invariant
                n == cands@.len(),
                cv == suggestion_views(cands@),
                forall|i: int| 0 <= i < cands@.len() ==> #[trigger] cands@[i].commits
                    + cands@[i].reviews <= usize::MAX,
                taken@.len() == n,
                j <= n,
                best == n || (best < j && !taken@[best as int]),
                best == n ==> forall|k: int| 0 <= k < j ==> #[trigger] taken@[k],
                best < n ==> forall|k: int|
                    0 <= k < j && !taken@[k] ==> ranks_at_least(cv[best as int], #[trigger] cv[k]),
            decreases n - j,
        {
            if !taken[j] {
                if best == n || !ranks_at_least_exec(&cands[best], &cands[j]) {
                    best = j;
                }
            }
            j = j + 1;
        }
        proof {
            if best == n {
                assert forall|j: int| 0 <= j < n implies idx.contains(j) by {
                    assert(taken@[j]);
                }
                lemma_distinct_cover(idx, n as int);
                assert(false);
            }
        }
        let ghost old_r = r@;
        let ghost old_taken = taken@;
        let ghost old_idx = idx;
        assert(!old_idx.contains(best as int));
        let pick = cands[best].copy();
        r.push(pick);
        taken.set(best, true);
        proof {
            idx = idx.push(best as int);
            assert(r@[idx.len() - 1]@ == cv[best as int]);
            assert forall|a: int| 0 <= a < old_idx.len() implies r@[a] == old_r[a] by {}
            assert forall|j: int| 0 <= j < n implies (#[trigger] taken@[j] <==> idx.contains(j)) by {
                if j == best {
                    assert(idx[idx.len() - 1] == j);
                } else {
                    assert(taken@[j] == old_taken[j]);
                    if old_idx.contains(j) {
                        let a = choose|a: int| 0 <= a < old_idx.len() && old_idx[a] == j;
                        assert(idx[a] == j);
                    }
                    if idx.contains(j) {
                        let a = choose|a: int| 0 <= a < idx.len() && idx[a] == j;
                        assert(a < old_idx.len());
                        assert(old_idx[a] == j);
                    }
                }
            }
            assert forall|a: int, b: int| 0 <= a < b < idx.len() implies #[trigger] idx[a]
                != #[trigger] idx[b] by {
                if b == idx.len() - 1 {
                    assert(idx[a] == old_idx[a]);
                    assert(old_idx.contains(idx[a]));
                } else {
                    assert(idx[a] == old_idx[a]);
                    assert(idx[b] == old_idx[b]);
                }
            }
            assert forall|a: int, b: int| 0 <= a < b < idx.len() implies ranks_at_least(
                #[trigger] r@[a]@,
                #[trigger] r@[b]@,
            ) by {
                assert(r@[a] == old_r[a]);
                if b == idx.len() - 1 {
                    assert(ranks_at_least(old_r[a]@, cv[best as int]));
                } else {
                    assert(r@[b] == old_r[b]);
                    assert(ranks_at_least(old_r[a]@, old_r[b]@));
                }
            }
            assert forall|a: int, j: int|
                0 <= a < idx.len() && 0 <= j < n && !taken@[j] implies ranks_at_least(
                #[trigger] r@[a]@,
                #[trigger] cv[j],
            ) by {
                assert(j != best);
                assert(!old_taken[j]);
                if a == idx.len() - 1 {
                    assert(ranks_at_least(cv[best as int], cv[j]));
                } else {
                    assert(r@[a] == old_r[a]);
                    assert(ranks_at_least(old_r[a]@, cv[j]));
                }
            }
        }
    }
    proof {
        let rv = suggestion_views(r@);
        assert forall|i: int| 0 <= i < rv.len() implies cv.contains(#[trigger] rv[i]) by {
            assert(rv[i] == cv[idx[i]]);
        }
        if cv.no_duplicates() {
            assert forall|a: int, b: int| 0 <= a < rv.len() && 0 <= b < rv.len() && a != b implies rv[a]
                != rv[b] by {
                assert(rv[a] == cv[idx[a]]);
                assert(rv[b] == cv[idx[b]]);
                if a < b {
                    assert(idx[a] != idx[b]);
                } else {
                    assert(idx[b] != idx[a]);
                }
            }
        }
        assert forall|a: int, b: int| 0 <= a < b < rv.len() implies ranks_at_least(
            #[trigger] rv[a],
            #[trigger] rv[b],
        ) by {
            assert(rv[a] == r@[a]@);
            assert(rv[b] == r@[b]@);
        }
        assert forall|j: int| 0 <= j < cv.len() && !rv.contains(#[trigger] cv[j]) implies forall|i: int|
            0 <= i < rv.len() ==> ranks_at_least(#[trigger] rv[i], cv[j]) by {
            if taken@[j] {
                let a = choose|a: int| 0 <= a < idx.len() && idx[a] == j;
                assert(rv[a] == cv[j]);
            }
            assert forall|i: int| 0 <= i < rv.len() implies ranks_at_least(#[trigger] rv[i], cv[j]) by {
                assert(rv[i] == r@[i]@);
            }
        }
    }
    r
}

/// Distinct indices below `n`, `n` of them, cover every index below `n`.
proof fn lemma_distinct_full(idx: Seq<int>, n: int, j: int)
    requires
        idx.len() == n,
        0 <= j < n,
        forall|a: int| 0 <= a < idx.len() ==> 0 <= #[trigger] idx[a] < n,
        forall|a: int, b: int| 0 <= a < b < idx.len() ==> #[trigger] idx[a] != #[trigger] idx[b],
    ensures
        idx.contains(j),
{
    if !idx.contains(j) {
        let s = vstd::set_lib::set_int_range(0, n).remove(j);
        vstd::set_lib::lemma_int_range(0, n);
        assert(idx.no_duplicates()) by {
            assert forall|a: int, b: int| 0 <= a < idx.len() && 0 <= b < idx.len() && a != b implies idx[a]
                != idx[b] by {
                if a < b {
                    assert(idx[a] != idx[b]);
                } else {
                    assert(idx[b] != idx[a]);
                }
            }
        }
        idx.unique_seq_to_set();
        assert(idx.to_set().subset_of(s)) by {
            assert forall|x: int| idx.to_set().contains(x) implies s.contains(x) by {
                let a = choose|a: int| 0 <= a < idx.len() && idx[a] == x;
                assert(idx[a] == x);
            }
        }
        vstd::set_lib::lemma_len_subset(idx.to_set(), s);
    }
}

/// `xs` in ascending order.
fn sort_strings(xs: &Vec<String>) -> (r: Vec<String>)
    ensures
        r@.len() == xs@.len(),
        forall|i: int| 0 <= i < r@.len() ==> views(xs@).contains(#[trigger] views(r@)[i]),
        forall|j: int| 0 <= j < xs@.len() ==> views(r@).contains(#[trigger] views(xs@)[j]),
        views(xs@).no_duplicates() ==> views(r@).no_duplicates(),
        forall|i: int, j: int|
            0 <= i < j < r@.len() ==> !lex_lt(#[trigger] views(r@)[j], #[trigger] views(r@)[i]),
{
    let n = xs.len();
    let ghost xv = views(xs@);
    let mut taken: Vec<bool> = Vec::new();
    let mut t: usize = 0;
    while t < n
        invariant
            t <= n == xs@.len(),
            taken@.len() == t,
            forall|j: int| 0 <= j < t ==> !taken@[j],
        decreases n - t,
    {
        taken.push(false);
        t = t + 1;
    }
    let mut r: Vec<String> = Vec::new();
    let ghost mut idx: Seq<int> = seq![];
    while r.len() < n
        invariant
            n == xs@.len(),
            xv == views(xs@),
            taken@.len() == n,
            r@.len() == idx.len() <= n,
            forall|a: int| 0 <= a < idx.len() ==> 0 <= #[trigger] idx[a] < n,
            forall|a: int| 0 <= a < idx.len() ==> r@[a]@ == xv[#[trigger] idx[a]],
            forall|a: int, b: int| 0 <= a < b < idx.len() ==> #[trigger] idx[a] != #[trigger] idx[b],
            forall|j: int| 0 <= j < n ==> (#[trigger] taken@[j] <==> idx.contains(j)),
            forall|a: int, b: int|
                0 <= a < b < idx.len() ==> !lex_lt(#[trigger] r@[b]@, #[trigger] r@[a]@),
            forall|a: int, j: int|
                0 <= a < idx.len() && 0 <= j < n && !taken@[j] ==> !lex_lt(
                    #[trigger] xv[j],
                    #[trigger] r@[a]@,
                ),
        decreases n - r@.len(),
    {
        let mut best: usize = n;
        let mut j: usize = 0;
        while j < n
            invariant
                n == xs@.len(),
                xv == views(xs@),
                taken@.len() == n,
                j <= n,
                best == n || (best < j && !taken@[best as int]),
                best == n ==> forall|k: int| 0 <= k < j ==> #[trigger] taken@[k],
                best < n ==> forall|k: int|
                    0 <= k < j && !taken@[k] ==> !lex_lt(#[trigger] xv[k], xv[best as int]),
            decreases n - j,
        {
            if !taken[j] {
                if best == n || string_lt(&xs[j], &xs[best]) {
                    proof {
                        lemma_lex_irrefl(xv[j as int]);
                        if best < n {
                            assert forall|k: int| 0 <= k < j && !taken@[k] implies !lex_lt(
                                #[trigger] xv[k],
                                xv[j as int],
                            ) by {
                                if lex_lt(xv[k], xv[j as int]) {
                                    lemma_lex_trans(xv[k], xv[j as int], xv[best as int]);
                                }
                            }
                        }
                    }
                    best = j;
                }
            }
            j = j + 1;
        }
        proof {
            if best == n {
                assert forall|j: int| 0 <= j < n implies idx.contains(j) by {
                    assert(taken@[j]);
                }
                lemma_distinct_cover(idx, n as int);
                assert(false);
            }
        }
        let ghost old_r = r@;
        let ghost old_taken = taken@;
        let ghost old_idx = idx;
        assert(!old_idx.contains(best as int));
        r.push(xs[best].clone());
        taken.set(best, true);
        proof {
            idx = idx.push(best as int);
            assert(r@[idx.len() - 1]@ == xv[best as int]);
            assert forall|a: int| 0 <= a < old_idx.len() implies r@[a] == old_r[a] by {}
            assert forall|j: int| 0 <= j < n implies (#[trigger] taken@[j] <==> idx.contains(j)) by {
                if j == best {
                    assert(idx[idx.len() - 1] == j);
                } else {
                    assert(taken@[j] == old_taken[j]);
                    if old_idx.contains(j) {
                        let a = choose|a: int| 0 <= a < old_idx.len() && old_idx[a] == j;
                        assert(idx[a] == j);
                    }
                    if idx.contains(j) {
                        let a = choose|a: int| 0 <= a < idx.len() && idx[a] == j;
                        assert(a < old_idx.len());
                        assert(old_idx[a] == j);
                    }
                }
            }
            assert forall|a: int, b: int| 0 <= a < b < idx.len() implies #[trigger] idx[a]
                != #[trigger] idx[b] by {
                if b == idx.len() - 1 {
                    assert(idx[a] == old_idx[a]);
                    assert(old_idx.contains(idx[a]));
                } else {
                    assert(idx[a] == old_idx[a]);
                    assert(idx[b] == old_idx[b]);
                }
            }
            assert forall|a: int, b: int| 0 <= a < b < idx.len() implies !lex_lt(
                #[trigger] r@[b]@,
                #[trigger] r@[a]@,
            ) by {
                assert(r@[a] == old_r[a]);
                if b == idx.len() - 1 {
                    assert(!lex_lt(xv[best as int], old_r[a]@));
                } else {
                    assert(r@[b] == old_r[b]);
                }
            }
            assert forall|a: int, j: int|
                0 <= a < idx.len() && 0 <= j < n && !taken@[j] implies !lex_lt(
                #[trigger] xv[j],
                #[trigger] r@[a]@,
            ) by {
                assert(j != best);
                assert(!old_taken[j]);
                if a < idx.len() - 1 {
                    assert(r@[a] == old_r[a]);
                }
            }
        }
    }
    proof {
        let rv = views(r@);
        assert forall|i: int| 0 <= i < rv.len() implies xv.contains(#[trigger] rv[i]) by {
            assert(rv[i] == xv[idx[i]]);
        }
        assert forall|j: int| 0 <= j < xv.len() implies rv.contains(#[trigger] xv[j]) by {
            lemma_distinct_full(idx, n as int, j);
            let a = choose|a: int| 0 <= a < idx.len() && idx[a] == j;
            assert(rv[a] == xv[j]);
        }
        if xv.no_duplicates() {
            assert forall|a: int, b: int| 0 <= a < rv.len() && 0 <= b < rv.len() && a != b implies rv[a]
                != rv[b] by {
                assert(rv[a] == xv[idx[a]]);
                assert(rv[b] == xv[idx[b]]);
                if a < b {
                    assert(idx[a] != idx[b]);
                } else {
                    assert(idx[b] != idx[a]);
                }
            }
        }
        assert forall|i: int, j: int| 0 <= i < j < rv.len() implies !lex_lt(
            #[trigger] rv[j],
            #[trigger] rv[i],
        ) by {
            assert(rv[i] == r@[i]@);
            assert(rv[j] == r@[j]@);
        }
    }
    r
}

/// Distinct indices that cover every index below `n` number at least `n`.
proof fn lemma_distinct_cover(idx: Seq<int>, n: int)
    requires
        0 <= n,
        forall|a: int, b: int| 0 <= a < b < idx.len() ==> #[trigger] idx[a] != #[trigger] idx[b],
        forall|j: int| 0 <= j < n ==> idx.contains(j),
    ensures
        idx.len() >= n,
{
    let s = Set::new(|j: int| 0 <= j < n);
    assert(s =~= vstd::set_lib::set_int_range(0, n));
    vstd::set_lib::lemma_int_range(0, n);
    assert(idx.no_duplicates()) by {
        assert forall|a: int, b: int| 0 <= a < idx.len() && 0 <= b < idx.len() && a != b implies idx[a]
            != idx[b] by {
            if a < b {
                assert(idx[a] != idx[b]);
            } else {
                assert(idx[b] != idx[a]);
            }
        }
    }
    idx.unique_seq_to_set();
    assert(s.subset_of(idx.to_set())) by {
        assert forall|j: int| s.contains(j) implies idx.to_set().contains(j) by {
            assert(idx.contains(j));
        }
    }
    vstd::set_lib::lemma_len_subset(s, idx.to_set());
}

/// Score teams based on contributor activity.
///
/// Each team's score is its members' commits and reviews in the lookback
/// window; teams without activity are left out. The best three come first by
/// total activity, then by number of active members (ties in both keep no
/// particular order). Contributors that belong to no team are listed, sorted,
/// as unresolved.
pub fn score_teams(
    team_members: &[(String, Vec<String>)],
    commit_authors: &[(String, usize)],
    pr_reviewers: &[(String, usize)],
    lookback_days: u64,
) -> (r: SuggestionResult)
    requires
        scoring_inputs_ok(team_members@, commit_authors@, pr_reviewers@),
    ensures
        is_top(
            suggestion_views(r.suggestions@),
            activity_candidates(team_members@, commit_authors@, pr_reviewers@),
            3,
        ),
        suggestion_views(r.suggestions@).no_duplicates(),
        views(r.unresolved@).to_set() == unresolved_contributors(
            team_members@,
            commit_authors@,
            pr_reviewers@,
        ).to_set(),
        views(r.unresolved@).len() == unresolved_contributors(
            team_members@,
            commit_authors@,
            pr_reviewers@,
        ).len(),
        forall|i: int, j: int|
            0 <= i < j < r.unresolved@.len() ==> lex_lt(
                #[trigger] views(r.unresolved@)[i],
                #[trigger] views(r.unresolved@)[j],
            ),
        r.lookback_days == lookback_days,
{
    let ghost cm = count_views(commit_authors@);
    let ghost rm = count_views(pr_reviewers@);
    let ghost tm = team_views(team_members@);
    let contribs = contributors_of(commit_authors, pr_reviewers);
    let ghost cv = views(contribs@);
    let mut cands: Vec<TeamSuggestion> = Vec::new();
    let mut t: usize = 0;
    assert(tm.take(0) =~= seq![]);
    assert(suggestion_views(cands@) =~= seq![]);
    while t < team_members.len()
        invariant
            t <= team_members@.len(),
            cm == count_views(commit_authors@),
            rm == count_views(pr_reviewers@),
            tm == team_views(team_members@),
            cv == views(contribs@),
            cv == contributors(cm, rm),
            scoring_inputs_ok(team_members@, commit_authors@, pr_reviewers@),
            suggestion_views(cands@) == candidates(tm.take(t as int), cv, cm, rm),
            forall|i: int| 0 <= i < cands@.len() ==> #[trigger] cands@[i].commits
                + cands@[i].reviews <= usize::MAX,
        decreases team_members.len() - t,
    {
        let ghost team = tm[t as int];
        assert(team == (team_members@[t as int].0@, views(team_members@[t as int].1@)));
        assert(tm.take(t + 1).drop_last() =~= tm.take(t as int));
        assert(tm.take(t + 1).last() == team);
        let members = &team_members[t].1;
        assert(sum_over(views(team_members@[t as int].1@), cm) + sum_over(
            views(team_members@[t as int].1@),
            rm,
        ) <= usize::MAX);
        let c = sum_counts(members, commit_authors);
        let rv = sum_counts(members, pr_reviewers);
        let active = members_among(&contribs, members);
        if active.len() > 0 && (c > 0 || rv > 0) {
            let ghost before = suggestion_views(cands@);
            let s = TeamSuggestion {
                team: team_members[t].0.clone(),
                commits: c,
                reviews: rv,
                members: active,
            };
            cands.push(s);
            assert(suggestion_views(cands@) =~= before.push(
                (team_members@[t as int].0@, c as nat, rv as nat, views(active@)),
            ));
        }
        t = t + 1;
    }
    assert(tm.take(team_members@.len() as int) =~= tm);
    proof {
        lemma_candidates_distinct(tm, cv, cm, rm);
    }
    let suggestions = top_ranked(&cands, 3);
    let loners = without_team(&contribs, team_members);
    let unresolved = sort_strings(&loners);
    proof {
        lemma_contributors_distinct(cm, rm);
        lemma_teamless(cv, tm);
        let u = views(unresolved@);
        let l = views(loners@);
        assert(u.to_set() =~= l.to_set()) by {
            assert forall|x: Seq<char>| u.to_set().contains(x) implies l.to_set().contains(x) by {
                let i = choose|i: int| 0 <= i < u.len() && u[i] == x;
                assert(l.contains(u[i]));
            }
            assert forall|x: Seq<char>| l.to_set().contains(x) implies u.to_set().contains(x) by {
                let j = choose|j: int| 0 <= j < l.len() && l[j] == x;
                assert(u.contains(l[j]));
            }
        }
        assert forall|i: int, j: int| 0 <= i < j < unresolved@.len() implies lex_lt(
            #[trigger] views(unresolved@)[i],
            #[trigger] views(unresolved@)[j],
        ) by {
            assert(!lex_lt(u[j], u[i]));
            assert(u[i] != u[j]);
            lemma_lex_total(u[i], u[j]);
        }
    }
    SuggestionResult { suggestions, unresolved, lookback_days }
}

/// How many times `user` occurs in `xs`.
pub open spec fn occurrences(xs: Seq<Seq<char>>, user: Seq<char>) -> nat
    decreases xs.len(),
{
    if xs.len() == 0 {
        0
    } else {
        occurrences(xs.drop_last(), user) + if xs.last() == user {
            1nat
        } else {
            0nat
        }
    }
}

proof fn lemma_lookup_at(m: Counts, k: int)
    requires
        count_keys(m).no_duplicates(),
        0 <= k < m.len(),
    ensures
        lookup(m, m[k].0) == m[k].1,
    decreases m.len(),
{
    if k > 0 {
        let t = m.drop_first();
        assert(count_keys(t) =~= count_keys(m).drop_first());
        assert(m[0].0 != m[k].0) by {
            assert(count_keys(m)[0] == m[0].0);
            assert(count_keys(m)[k] == m[k].0);
        }
        assert(t[k - 1] == m[k]);
        lemma_lookup_at(t, k - 1);
    }
}

proof fn lemma_lookup_absent(m: Counts, user: Seq<char>)
    requires
        !count_keys(m).contains(user),
    ensures
        lookup(m, user) == 0,
    decreases m.len(),
{
    if m.len() > 0 {
        assert(count_keys(m)[0] == m[0].0);
        let t = m.drop_first();
        assert forall|i: int| 0 <= i < count_keys(t).len() implies count_keys(t)[i] != user by {
            assert(count_keys(t)[i] == count_keys(m)[i + 1]);
        }
        lemma_lookup_absent(t, user);
    }
}

/// The activity counts of `logins`: each login once, with the number of
/// times it occurs (one entry per commit or per review).
pub fn count_activity(logins: &[String]) -> (r: Vec<(String, usize)>)
    ensures
        count_keys(count_views(r@)).no_duplicates(),
        count_keys(count_views(r@)).to_set() == views(logins@).to_set(),
        forall|u: Seq<char>| #[trigger] lookup(count_views(r@), u) == occurrences(views(logins@), u),
{
    let ghost xs = views(logins@);
    let mut r: Vec<(String, usize)> = Vec::new();
    let mut i: usize = 0;
    assert(xs.take(0) =~= seq![]);
    assert(count_keys(count_views(r@)) =~= seq![]);
    while i < logins.len()
        invariant
            i <= logins@.len(),
            xs == views(logins@),
            count_keys(count_views(r@)).no_duplicates(),
            count_keys(count_views(r@)).to_set() == xs.take(i as int).to_set(),
            forall|u: Seq<char>| #[trigger] lookup(count_views(r@), u) == occurrences(
                xs.take(i as int),
                u,
            ),
            forall|k: int| 0 <= k < r@.len() ==> #[trigger] r@[k].1 <= i,
        decreases logins.len() - i,
    {
        let ghost old_m = count_views(r@);
        let ghost x = xs[i as int];
        assert(x == logins@[i as int]@);
        assert(xs.take(i + 1).drop_last() =~= xs.take(i as int));
        assert(xs.take(i + 1).last() == x);
        proof {
            let t1 = xs.take(i + 1);
            let t0 = xs.take(i as int);
            assert forall|y: Seq<char>| #[trigger] t1.to_set().contains(y) implies t0.to_set().insert(
                x,
            ).contains(y) by {
                let k = choose|k: int| 0 <= k < t1.len() && t1[k] == y;
                if k < i {
                    assert(t0[k] == y);
                }
            }
            assert forall|y: Seq<char>| t0.to_set().insert(x).contains(y) implies #[trigger] t1.to_set().contains(
                y,
            ) by {
                if y == x {
                    assert(t1[i as int] == x);
                } else {
                    let k = choose|k: int| 0 <= k < t0.len() && t0[k] == y;
                    assert(t1[k] == y);
                }
            }
            assert(t1.to_set() =~= t0.to_set().insert(x));
        }
        let mut k: usize = 0;
        let mut found = false;
        while k < r.len() && !found
            invariant
                k <= r@.len(),
                i < logins@.len(),
                x == logins@[i as int]@,
                found ==> k < r@.len() && r@[k as int].0@ == x,
                !found ==> forall|j: int| 0 <= j < k ==> (#[trigger] r@[j]).0@ != x,
            decreases r@.len() - k + if found { 0int } else { 1int },
        {
            if r[k].0.eq(&logins[i]) {
                found = true;
            } else {
                k = k + 1;
            }
        }
        if found {
            let c = r[k].1;
            assert(c <= i);
            let name = r[k].0.clone();
            r.set(k, (name, c + 1));
            proof {
                let m = count_views(r@);
                assert(count_keys(m) =~= count_keys(old_m));
                assert(count_keys(old_m)[k as int] == x);
                assert(count_keys(m).to_set() =~= xs.take(i as int).to_set().insert(x));
                assert(m =~= old_m.update(k as int, (x, (c + 1) as nat)));
                assert forall|u: Seq<char>| #[trigger] lookup(m, u) == occurrences(xs.take(i + 1), u) by {
                    if u == x {
                        assert(m[k as int].0 == x);
                        lemma_lookup_at(m, k as int);
                        assert(old_m[k as int].0 == x);
                        lemma_lookup_at(old_m, k as int);
                    } else if count_keys(m).contains(u) {
                        let j = choose|j: int| 0 <= j < count_keys(m).len() && count_keys(m)[j] == u;
                        assert(m[j].0 == u);
                        lemma_lookup_at(m, j);
                        lemma_lookup_at(old_m, j);
                    } else {
                        lemma_lookup_absent(m, u);
                        lemma_lookup_absent(old_m, u);
                    }
                }
            }
        } else {
            r.push((logins[i].clone(), 1));
            proof {
                let m = count_views(r@);
                assert(m =~= old_m.push((x, 1nat)));
                assert(count_keys(m) =~= count_keys(old_m).push(x));
                assert(count_keys(m).to_set() =~= count_keys(old_m).to_set().insert(x)) by {
                    assert forall|y: Seq<char>| #[trigger] count_keys(m).to_set().contains(y) implies count_keys(
                        old_m,
                    ).to_set().insert(x).contains(y) by {
                        let j = choose|j: int| 0 <= j < count_keys(m).len() && count_keys(m)[j] == y;
                        if j < count_keys(old_m).len() {
                            assert(count_keys(old_m)[j] == y);
                        }
                    }
                    assert forall|y: Seq<char>| count_keys(old_m).to_set().insert(x).contains(y) implies #[trigger] count_keys(
                        m,
                    ).to_set().contains(y) by {
                        if y == x {
                            assert(count_keys(m)[count_keys(m).len() - 1] == x);
                        } else {
                            let j = choose|j: int| 0 <= j < count_keys(old_m).len() && count_keys(old_m)[j] == y;
                            assert(count_keys(m)[j] == y);
                        }
                    }
                }
                assert(!count_keys(old_m).contains(x)) by {
                    if count_keys(old_m).contains(x) {
                        let j = choose|j: int| 0 <= j < count_keys(old_m).len() && count_keys(old_m)[j] == x;
                        assert(old_m[j].0 == x);
                    }
                }
                assert forall|u: Seq<char>| #[trigger] lookup(m, u) == occurrences(xs.take(i + 1), u) by {
                    if u == x {
                        assert(m[m.len() - 1].0 == x);
                        lemma_lookup_at(m, m.len() - 1);
                        lemma_lookup_absent(old_m, u);
                    } else if count_keys(old_m).contains(u) {
                        let j = choose|j: int| 0 <= j < count_keys(old_m).len() && count_keys(old_m)[j] == u;
                        assert(m[j] == old_m[j]);
                        lemma_lookup_at(m, j);
                        lemma_lookup_at(old_m, j);
                    } else {
                        assert(!count_keys(m).contains(u));
                        lemma_lookup_absent(m, u);
                        lemma_lookup_absent(old_m, u);
                    }
                }
            }
        }
        i = i + 1;
    }
    assert(xs.take(logins@.len() as int) =~= xs);
    r
}

/// The numbers of the pull requests updated at or after `since`, taken from
/// the front of a page sorted by update time, newest first: the first older
/// one ends the run. Each entry is a PR number with its update time.
pub fn recent_pull_requests(page: &[(u64, i64)], since: i64) -> (r: Vec<u64>)
    ensures
        r@.len() <= page@.len(),
        forall|k: int| 0 <= k < r@.len() ==> r@[k] == (#[trigger] page@[k]).0 && page@[k].1 >= since,
        r@.len() < page@.len() ==> page@[r@.len() as int].1 < since,
{
    let mut r: Vec<u64> = Vec::new();
    let mut i: usize = 0;
    while i < page.len() && page[i].1 >= since
        invariant
            i <= page@.len(),
            r@.len() == i,
            forall|k: int| 0 <= k < i ==> r@[k] == (#[trigger] page@[k]).0 && page@[k].1 >= since,
        decreases page.len() - i,
    {
        r.push(page[i].0);
        i = i + 1;
    }
    r
}

/// Without any commit or review there is nothing to suggest and nobody unresolved.
pub proof fn law_no_activity_no_suggestions(tm: Teams, commits: Counts, reviews: Counts)
    requires
        commits.len() == 0,
        reviews.len() == 0,
    ensures
        candidates(tm, contributors(commits, reviews), commits, reviews).len() == 0,
        teamless(contributors(commits, reviews), tm).len() == 0,
    decreases tm.len(),
{
    let c = contributors(commits, reviews);
    assert(count_keys(commits) =~= seq![]);
    assert(count_keys(reviews) =~= seq![]);
    assert(c =~= seq![]);
    if tm.len() > 0 {
        law_no_activity_no_suggestions(tm.drop_last(), commits, reviews);
    }
}

/// Someone in several teams counts for each of them: a team is credited with
/// at least the activity of each of its members.
pub proof fn law_member_activity_counts_for_team(members: Seq<Seq<char>>, m: Counts, user: Seq<char>)
    requires
        members.contains(user),
    ensures
        sum_over(members, m) >= lookup(m, user),
    decreases members.len(),
{
    let prev = members.drop_last();
    if members.last() != user {
        let k = choose|k: int| 0 <= k < members.len() && members[k] == user;
        assert(k < members.len() - 1);
        assert(prev[k] == user);
        law_member_activity_counts_for_team(prev, m, user);
    }
}

/// The teams a suggestion may name: those with at most `max_size` members
/// that `exclude` does not name, in their given order. Org-wide teams, which
/// everyone belongs to, would otherwise top every ranking.
pub open spec fn eligible(tm: Teams, max_size: nat, exclude: Seq<Seq<char>>) -> Teams
    decreases tm.len(),
{
    if tm.len() == 0 {
        seq![]
    } else {
        let rest = eligible(tm.drop_last(), max_size, exclude);
        let t = tm.last();
        if t.1.len() <= max_size && !exclude.contains(t.0) {
            rest.push(t)
        } else {
            rest
        }
    }
}

/// The teams a suggestion may name: at most `max_team_size` members, and
/// not listed in `exclude`.
pub fn eligible_teams(
    team_members: &[(String, Vec<String>)],
    max_team_size: usize,
    exclude: &[String],
) -> (r: Vec<(String, Vec<String>)>)
    ensures
        team_views(r@) == eligible(team_views(team_members@), max_team_size as nat, views(exclude@)),
{
    let ghost tm = team_views(team_members@);
    let ghost ex = views(exclude@);
    let mut r: Vec<(String, Vec<String>)> = Vec::new();
    let mut i: usize = 0;
    assert(tm.take(0) =~= seq![]);
    while i < team_members.len()
        invariant
            i <= team_members@.len(),
            tm == team_views(team_members@),
            ex == views(exclude@),
            team_views(r@) == eligible(tm.take(i as int), max_team_size as nat, ex),
        decreases team_members.len() - i,
    {
        assert(tm.take(i + 1).drop_last() =~= tm.take(i as int));
        assert(tm.take(i + 1).last() == tm[i as int]);
        let members = &team_members[i].1;
        if members.len() <= max_team_size && !contains_string(exclude, &team_members[i].0) {
            let entry = (team_members[i].0.clone(), clone_strings(members.as_slice()));
            r.push(entry);
            assert(team_views(r@) =~= eligible(tm.take(i + 1), max_team_size as nat, ex));
        } else {
            assert(team_views(r@) =~= eligible(tm.take(i + 1), max_team_size as nat, ex));
        }
        i = i + 1;
    }
    assert(tm.take(team_members@.len() as int) =~= tm);
    r
}

/// The inputs of a scoring, as plain values: each login and each team
/// listed once, and no team's commits and reviews together above `usize::MAX`.
pub open spec fn scoring_views_ok(tm: Teams, cm: Counts, rm: Counts) -> bool {
    &&& team_keys(tm).no_duplicates()
    &&& count_keys(cm).no_duplicates()
    &&& count_keys(rm).no_duplicates()
    &&& forall|i: int|
        0 <= i < tm.len() ==> sum_over((#[trigger] tm[i]).1, cm) + sum_over(tm[i].1, rm)
            <= usize::MAX
}

/// Whether no two of `xs` are equal.
fn all_distinct(xs: &Vec<String>) -> (b: bool)
    ensures
        b == views(xs@).no_duplicates(),
{
    let ghost v = views(xs@);
    let mut i: usize = 0;
    while i < xs.len()
        invariant
            i <= xs@.len(),
            v == views(xs@),
            forall|a: int, b: int| 0 <= a < b < xs@.len() && a < i ==> v[a] != v[b],
        decreases xs.len() - i,
    {
        let mut j: usize = i + 1;
        while j < xs.len()
            invariant
                i < j <= xs@.len(),
                v == views(xs@),
                forall|a: int, b: int| 0 <= a < b < xs@.len() && a < i ==> v[a] != v[b],
                forall|b: int| i < b < j ==> v[i as int] != v[b],
            decreases xs.len() - j,
        {
            if xs[i].eq(&xs[j]) {
                assert(v[i as int] == v[j as int]);
                return false;
            }
            j = j + 1;
        }
        i = i + 1;
    }
    true
}

/// The counts of `members` added up, `None` when the sum exceeds `usize::MAX`.
fn checked_sum(members: &Vec<String>, m: &[(String, usize)]) -> (r: Option<usize>)
    ensures
        match r {
            Some(s) => s == sum_over(views(members@), count_views(m@)),
            None => sum_over(views(members@), count_views(m@)) > usize::MAX,
        },
{
    let ghost ms = views(members@);
    let ghost cm = count_views(m@);
    let mut s: usize = 0;
    let mut i: usize = 0;
    assert(ms.take(0) =~= seq![]);
    while i < members.len()
        invariant
            i <= members@.len(),
            ms == views(members@),
            cm == count_views(m@),
            s == sum_over(ms.take(i as int), cm),
        decreases members.len() - i,
    {
        assert(ms.take(i + 1).drop_last() =~= ms.take(i as int));
        assert(ms.take(i + 1).last() == members@[i as int]@);
        let c = count_for(m, &members[i]);
        match s.checked_add(c) {
            Some(t) => s = t,
            None => {
                proof {
                    lemma_sum_prefix(ms, cm, i + 1);
                }
                return None;
            },
        }
        i = i + 1;
    }
    assert(ms.take(members@.len() as int) =~= ms);
    Some(s)
}

/// Whether `team_members`, `commits` and `reviews` can be scored.
fn scoring_inputs_fit(
    team_members: &[(String, Vec<String>)],
    commits: &[(String, usize)],
    reviews: &[(String, usize)],
) -> (b: bool)
    ensures
        b == scoring_views_ok(team_views(team_members@), count_views(commits@), count_views(reviews@)),
{
    let ghost tm = team_views(team_members@);
    let ghost cm = count_views(commits@);
    let ghost rm = count_views(reviews@);
    let mut names: Vec<String> = Vec::new();
    let mut i: usize = 0;
    while i < team_members.len()
        invariant
            i <= team_members@.len(),
            tm == team_views(team_members@),
            cm == count_views(commits@),
            rm == count_views(reviews@),
            views(names@) =~= team_keys(tm).take(i as int),
            forall|k: int|
                0 <= k < i ==> sum_over((#[trigger] tm[k]).1, cm) + sum_over(tm[k].1, rm)
                    <= usize::MAX,
        decreases team_members.len() - i,
    {
        let members = &team_members[i].1;
        let c = checked_sum(members, commits);
        let r = checked_sum(members, reviews);
        assert(tm[i as int].1 == views(members@));
        match (c, r) {
            (Some(x), Some(y)) => {
                if x.checked_add(y).is_none() {
                    return false;
                }
            },
            _ => {
                return false;
            },
        }
        let ghost before = views(names@);
        names.push(team_members[i].0.clone());
        assert(views(names@) =~= before.push(team_members@[i as int].0@));
        i = i + 1;
    }
    assert(team_keys(tm).take(team_members@.len() as int) =~= team_keys(tm));
    let authors = keys_of(commits);
    let reviewers = keys_of(reviews);
    all_distinct(&names) && all_distinct(&authors) && all_distinct(&reviewers)
}

/// Owner suggestions for a repo: the teams that `eligible_teams` keeps,
/// scored as `score_teams` does; `None` when a login or a team is listed
/// twice, or a team's activity adds up to more than `usize::MAX`.
pub fn suggest_owners(
    team_members: &[(String, Vec<String>)],
    commit_authors: &[(String, usize)],
    pr_reviewers: &[(String, usize)],
    lookback_days: u64,
    max_team_size: usize,
    exclude: &[String],
) -> (r: Option<SuggestionResult>)
    ensures
        ({
            let tm = eligible(team_views(team_members@), max_team_size as nat, views(exclude@));
            let cm = count_views(commit_authors@);
            let rm = count_views(pr_reviewers@);
            &&& r is Some <==> scoring_views_ok(tm, cm, rm)
            &&& r matches Some(s) ==> {
                &&& is_top(
                    suggestion_views(s.suggestions@),
                    candidates(tm, contributors(cm, rm), cm, rm),
                    3,
                )
                &&& suggestion_views(s.suggestions@).no_duplicates()
                &&& views(s.unresolved@).to_set() == teamless(contributors(cm, rm), tm).to_set()
                &&& views(s.unresolved@).len() == teamless(contributors(cm, rm), tm).len()
                &&& forall|i: int, j: int|
                    0 <= i < j < s.unresolved@.len() ==> lex_lt(
                        #[trigger] views(s.unresolved@)[i],
                        #[trigger] views(s.unresolved@)[j],
                    )
                &&& s.lookback_days == lookback_days
            }
        }),
{
    let teams = eligible_teams(team_members, max_team_size, exclude);
    if !scoring_inputs_fit(teams.as_slice(), commit_authors, pr_reviewers) {
        return None;
    }
    let ghost tm = team_views(teams@);
    assert forall|i: int| 0 <= i < teams@.len() implies sum_over(
        views((#[trigger] teams@[i]).1@),
        count_views(commit_authors@),
    ) + sum_over(views(teams@[i].1@), count_views(pr_reviewers@)) <= usize::MAX by {
        assert(tm[i].1 == views(teams@[i].1@));
    }
    Some(score_teams(teams.as_slice(), commit_authors, pr_reviewers, lookback_days))
}

/// Every team `eligible` keeps is one of `tm`, small enough and not excluded.
proof fn lemma_eligible_from(tm: Teams, max_size: nat, exclude: Seq<Seq<char>>)
    ensures
        forall|k: int|
            0 <= k < eligible(tm, max_size, exclude).len() ==> {
                let t = #[trigger] eligible(tm, max_size, exclude)[k];
                &&& tm.contains(t)
                &&& t.1.len() <= max_size
                &&& !exclude.contains(t.0)
            },
    decreases tm.len(),
{
    if tm.len() > 0 {
        let prev = tm.drop_last();
        lemma_eligible_from(prev, max_size, exclude);
        let rest = eligible(prev, max_size, exclude);
        let all = eligible(tm, max_size, exclude);
        assert forall|k: int| 0 <= k < all.len() implies tm.contains(#[trigger] all[k]) by {
            if k < rest.len() {
                assert(all[k] == rest[k]);
                let j = choose|j: int| 0 <= j < prev.len() && prev[j] == rest[k];
                assert(tm[j] == prev[j]);
            } else {
                assert(all[k] == tm[tm.len() - 1]);
            }
        }
        assert forall|k: int| 0 <= k < all.len() implies (#[trigger] all[k]).1.len() <= max_size
            && !exclude.contains(all[k].0) by {
            if k < rest.len() {
                assert(all[k] == rest[k]);
            }
        }
    }
}

/// Org-wide and excluded teams are never suggested: every team ranked from
/// the eligible teams is one of the given teams, with at most `max_size`
/// members, and not in `exclude`.
pub proof fn law_ineligible_teams_never_suggested(
    tm: Teams,
    contribs: Seq<Seq<char>>,
    cm: Counts,
    rm: Counts,
    max_size: nat,
    exclude: Seq<Seq<char>>,
    i: int,
)
    requires
        0 <= i < candidates(eligible(tm, max_size, exclude), contribs, cm, rm).len(),
    ensures
        ({
            let team = candidates(eligible(tm, max_size, exclude), contribs, cm, rm)[i].0;
            &&& !exclude.contains(team)
            &&& exists|j: int| 0 <= j < tm.len() && tm[j].0 == team && tm[j].1.len() <= max_size
        }),
{
    let el = eligible(tm, max_size, exclude);
    lemma_candidates_distinct(el, contribs, cm, rm);
    lemma_eligible_from(tm, max_size, exclude);
    let team = candidates(el, contribs, cm, rm)[i].0;
    assert(team_keys(el).contains(team));
    let k = choose|k: int| 0 <= k < team_keys(el).len() && team_keys(el)[k] == team;
    assert(el[k].0 == team);
    let t = el[k];
    assert(tm.contains(t));
    let j = choose|j: int| 0 <= j < tm.len() && tm[j] == t;
    assert(tm[j].0 == team && tm[j].1.len() <= max_size);
}

proof fn lemma_teamless_contains(xs: Seq<Seq<char>>, tm: Teams, u: Seq<char>)
    ensures
        teamless(xs, tm).contains(u) <==> (xs.contains(u) && !in_some_team(tm, u)),
    decreases xs.len(),
{
    if xs.len() > 0 {
        let prev = xs.drop_last();
        lemma_teamless_contains(prev, tm, u);
        let t = teamless(xs, tm);
        let tp = teamless(prev, tm);
        if xs.contains(u) && !in_some_team(tm, u) {
            let k = choose|k: int| 0 <= k < xs.len() && xs[k] == u;
            if k < xs.len() - 1 {
                assert(prev[k] == u);
                let j = choose|j: int| 0 <= j < tp.len() && tp[j] == u;
                if !in_some_team(tm, xs.last()) {
                    assert(t[j] == u);
                }
            } else {
                assert(t[t.len() - 1] == u);
            }
        }
        if t.contains(u) {
            let j = choose|j: int| 0 <= j < t.len() && t[j] == u;
            if j < tp.len() {
                assert(t[j] == tp[j]);
                assert(tp.contains(u));
                let k = choose|k: int| 0 <= k < prev.len() && prev[k] == u;
                assert(xs[k] == u);
            } else {
                assert(u == xs.last());
                assert(xs[xs.len() - 1] == u);
            }
        }
    }
}

proof fn lemma_not_in_contains(xs: Seq<Seq<char>>, seen: Seq<Seq<char>>, u: Seq<char>)
    ensures
        not_in(xs, seen).contains(u) <==> (xs.contains(u) && !seen.contains(u)),
    decreases xs.len(),
{
    if xs.len() > 0 {
        let prev = xs.drop_last();
        lemma_not_in_contains(prev, seen, u);
        let t = not_in(xs, seen);
        let tp = not_in(prev, seen);
        if xs.contains(u) && !seen.contains(u) {
            let k = choose|k: int| 0 <= k < xs.len() && xs[k] == u;
            if k < xs.len() - 1 {
                assert(prev[k] == u);
                let j = choose|j: int| 0 <= j < tp.len() && tp[j] == u;
                if !seen.contains(xs.last()) {
                    assert(t[j] == u);
                }
            } else {
                assert(t[t.len() - 1] == u);
            }
        }
        if t.contains(u) {
            let j = choose|j: int| 0 <= j < t.len() && t[j] == u;
            if j < tp.len() {
                assert(t[j] == tp[j]);
                assert(tp.contains(u));
                let k = choose|k: int| 0 <= k < prev.len() && prev[k] == u;
                assert(xs[k] == u);
            } else {
                assert(u == xs.last());
                assert(xs[xs.len() - 1] == u);
            }
        }
    }
}

/// Everyone with a commit or a review is a contributor, and nobody else.
proof fn lemma_contributors_contains(cm: Counts, rm: Counts, u: Seq<char>)
    ensures
        contributors(cm, rm).contains(u) <==> (count_keys(cm).contains(u) || count_keys(rm).contains(
            u,
        )),
{
    let a = count_keys(cm);
    let b = not_in(count_keys(rm), a);
    let c = contributors(cm, rm);
    lemma_not_in_contains(count_keys(rm), a, u);
    if a.contains(u) {
        let k = choose|k: int| 0 <= k < a.len() && a[k] == u;
        assert(c[k] == u);
    } else if b.contains(u) {
        let k = choose|k: int| 0 <= k < b.len() && b[k] == u;
        assert(c[a.len() + k] == u);
    }
    if c.contains(u) {
        let k = choose|k: int| 0 <= k < c.len() && c[k] == u;
        if k < a.len() {
            assert(a[k] == u);
        } else {
            assert(b[k - a.len()] == u);
        }
    }
}

/// The unresolved contributors are exactly the people with a commit or a
/// review who belong to no team.
pub proof fn law_unresolved_are_teamless_contributors(tm: Teams, cm: Counts, rm: Counts, u: Seq<char>)
    ensures
        teamless(contributors(cm, rm), tm).contains(u) <==> ((count_keys(cm).contains(u)
            || count_keys(rm).contains(u)) && !in_some_team(tm, u)),
{
    lemma_teamless_contains(contributors(cm, rm), tm, u);
    lemma_contributors_contains(cm, rm, u);
}

/// A user with a nonzero count is one the counts list.
proof fn lemma_counted_is_key(m: Counts, u: Seq<char>)
    requires
        lookup(m, u) > 0,
    ensures
        count_keys(m).contains(u),
    decreases m.len(),
{
    if m[0].0 == u {
        assert(count_keys(m)[0] == u);
    } else {
        lemma_counted_is_key(m.drop_first(), u);
        let k = choose|k: int| 0 <= k < count_keys(m.drop_first()).len() && count_keys(m.drop_first())[k] == u;
        assert(count_keys(m)[k + 1] == u);
    }
}

/// A positive sum over `members` has a member with a positive count.
proof fn lemma_sum_has_member(members: Seq<Seq<char>>, m: Counts) -> (u: Seq<char>)
    requires
        sum_over(members, m) > 0,
    ensures
        members.contains(u),
        lookup(m, u) > 0,
    decreases members.len(),
{
    if lookup(m, members.last()) > 0 {
        assert(members[members.len() - 1] == members.last());
        members.last()
    } else {
        let u = lemma_sum_has_member(members.drop_last(), m);
        let k = choose|k: int| 0 <= k < members.len() - 1 && members.drop_last()[k] == u;
        assert(members[k] == u);
        u
    }
}

/// `xs` holding `u`, and `members` too, leaves `u` among them.
proof fn lemma_among_nonempty(xs: Seq<Seq<char>>, members: Seq<Seq<char>>, u: Seq<char>)
    requires
        xs.contains(u),
        members.contains(u),
    ensures
        among(xs, members).len() > 0,
    decreases xs.len(),
{
    if !members.contains(xs.last()) {
        let k = choose|k: int| 0 <= k < xs.len() && xs[k] == u;
        assert(k < xs.len() - 1);
        assert(xs.drop_last()[k] == u);
        lemma_among_nonempty(xs.drop_last(), members, u);
    }
}

/// A team is a candidate exactly when its members have some commit or
/// review: every team with activity is ranked, and no team without.
pub proof fn law_candidate_iff_active(team: (Seq<char>, Seq<Seq<char>>), cm: Counts, rm: Counts)
    ensures
        team_candidate(team, contributors(cm, rm), cm, rm) is Some <==> sum_over(team.1, cm)
            + sum_over(team.1, rm) > 0,
{
    let contribs = contributors(cm, rm);
    if sum_over(team.1, cm) > 0 {
        let u = lemma_sum_has_member(team.1, cm);
        lemma_counted_is_key(cm, u);
        lemma_contributors_contains(cm, rm, u);
        lemma_among_nonempty(contribs, team.1, u);
    } else if sum_over(team.1, rm) > 0 {
        let u = lemma_sum_has_member(team.1, rm);
        lemma_counted_is_key(rm, u);
        lemma_contributors_contains(cm, rm, u);
        lemma_among_nonempty(contribs, team.1, u);
    }
}

proof fn lemma_among_contains(xs: Seq<Seq<char>>, members: Seq<Seq<char>>, u: Seq<char>)
    ensures
        among(xs, members).contains(u) <==> (xs.contains(u) && members.contains(u)),
    decreases xs.len(),
{
    if xs.len() > 0 {
        let prev = xs.drop_last();
        lemma_among_contains(prev, members, u);
        let t = among(xs, members);
        let tp = among(prev, members);
        if xs.contains(u) && members.contains(u) {
            let k = choose|k: int| 0 <= k < xs.len() && xs[k] == u;
            if k < xs.len() - 1 {
                assert(prev[k] == u);
                let j = choose|j: int| 0 <= j < tp.len() && tp[j] == u;
                if members.contains(xs.last()) {
                    assert(t[j] == u);
                }
            } else {
                assert(t[t.len() - 1] == u);
            }
        }
        if t.contains(u) {
            let j = choose|j: int| 0 <= j < t.len() && t[j] == u;
            if j < tp.len() {
                assert(t[j] == tp[j]);
                assert(tp.contains(u));
                let k = choose|k: int| 0 <= k < prev.len() && prev[k] == u;
                assert(xs[k] == u);
            } else {
                assert(u == xs.last());
                assert(xs[xs.len() - 1] == u);
            }
        }
    }
}

/// Each ranked team is one of the teams: its commits and reviews are its
/// members' counts added up, together above zero, and its active members
/// are exactly its members with a commit or a review.
pub proof fn law_candidates_come_from_teams(tm: Teams, cm: Counts, rm: Counts, i: int, u: Seq<char>)
    requires
        0 <= i < candidates(tm, contributors(cm, rm), cm, rm).len(),
    ensures
        ({
            let c = candidates(tm, contributors(cm, rm), cm, rm)[i];
            &&& exists|j: int|
                0 <= j < tm.len() && (#[trigger] tm[j]).0 == c.0 && c.1 == sum_over(tm[j].1, cm)
                    && c.2 == sum_over(tm[j].1, rm) && c.3 == among(contributors(cm, rm), tm[j].1)
            &&& c.1 + c.2 > 0
            &&& c.3.contains(u) <==> exists|j: int|
                0 <= j < tm.len() && (#[trigger] tm[j]).0 == c.0 && c.3 == among(
                    contributors(cm, rm),
                    tm[j].1,
                ) && tm[j].1.contains(u) && (count_keys(cm).contains(u) || count_keys(
                    rm,
                ).contains(u))
        }),
    decreases tm.len(),
{
    let contribs = contributors(cm, rm);
    let prev = tm.drop_last();
    let rest = candidates(prev, contribs, cm, rm);
    let all = candidates(tm, contribs, cm, rm);
    let c = all[i];
    let j = if i < rest.len() {
        assert(all[i] == rest[i]);
        law_candidates_come_from_teams(prev, cm, rm, i, u);
        let j = choose|j: int|
            0 <= j < prev.len() && (#[trigger] prev[j]).0 == c.0 && c.1 == sum_over(prev[j].1, cm)
                && c.2 == sum_over(prev[j].1, rm) && c.3 == among(contribs, prev[j].1);
        assert(tm[j] == prev[j]);
        j
    } else {
        let j = tm.len() - 1;
        assert(tm[j] == tm.last());
        j
    };
    assert(0 <= j < tm.len() && tm[j].0 == c.0 && c.1 == sum_over(tm[j].1, cm) && c.2 == sum_over(
        tm[j].1,
        rm,
    ) && c.3 == among(contribs, tm[j].1));
    lemma_among_contains(contribs, tm[j].1, u);
    lemma_contributors_contains(cm, rm, u);
    if c.3.contains(u) {
        assert(tm[j].1.contains(u));
    }
    assert forall|k: int|
        0 <= k < tm.len() && (#[trigger] tm[k]).0 == c.0 && c.3 == among(contribs, tm[k].1)
            && tm[k].1.contains(u) && (count_keys(cm).contains(u) || count_keys(rm).contains(u))
        implies c.3.contains(u) by {
        lemma_among_contains(contribs, tm[k].1, u);
    }
}

/// Suggestions are ranked by total activity, reviews included: each ranked
/// team's commits plus reviews is at least that of every team ranked after
/// it and of every candidate left out; among equal totals, more active
/// members rank first.
pub proof fn law_ranked_by_total_activity(r: Seq<SuggestionView>, cands: Seq<SuggestionView>, limit: nat)
    requires
        is_top(r, cands, limit),
    ensures
        forall|i: int, j: int|
            0 <= i < j < r.len() ==> #[trigger] r[i].1 + r[i].2 >= #[trigger] r[j].1 + r[j].2,
        forall|i: int, j: int|
            0 <= i < j < r.len() && r[i].1 + r[i].2 == r[j].1 + r[j].2 ==> (#[trigger] r[i]).3.len()
                >= (#[trigger] r[j]).3.len(),
        forall|i: int, k: int|
            0 <= i < r.len() && 0 <= k < cands.len() && !r.contains(cands[k]) ==> #[trigger] r[i].1
                + r[i].2 >= #[trigger] cands[k].1 + cands[k].2,
{
    assert forall|i: int, j: int| 0 <= i < j < r.len() implies #[trigger] r[i].1 + r[i].2 >= #[trigger] r[j].1
        + r[j].2 by {
        assert(ranks_at_least(r[i], r[j]));
    }
    assert forall|i: int, j: int|
        0 <= i < j < r.len() && r[i].1 + r[i].2 == r[j].1 + r[j].2 implies (#[trigger] r[i]).3.len()
        >= (#[trigger] r[j]).3.len() by {
        assert(ranks_at_least(r[i], r[j]));
    }
    assert forall|i: int, k: int|
        0 <= i < r.len() && 0 <= k < cands.len() && !r.contains(cands[k]) implies #[trigger] r[i].1
        + r[i].2 >= #[trigger] cands[k].1 + cands[k].2 by {
        assert(ranks_at_least(r[i], cands[k]));
    }
}

} // verus!
