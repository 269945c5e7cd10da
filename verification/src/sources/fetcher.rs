//! The decisions made while fetching a repo's ownership files: which
//! CODEOWNERS candidate to keep, and which repo teams count as admins.
use vstd::prelude::*;

use super::codeowners::{has_usable_rule, usable_rule};
use crate::text::{string_opt, views};

verus! {

/// Raw source files fetched for a single repo.
#[derive(Debug, Clone)]
pub struct RepoSources {
    pub repo_name: String,
    pub codeowners: Option<String>,
    pub catalog_info: Option<String>,
    pub admin_teams: Vec<String>,
}

/// What to do next while looking for a CODEOWNERS file.
#[derive(Debug, Clone, PartialEq, Eq)]
pub enum SearchAction {
    /// Fetch the candidate path with this index.
    Fetch(usize),
    /// Stop: this is the file to use, if any.
    Finish(Option<String>),
}

/// The search over CODEOWNERS candidate paths, taken in GitHub's precedence
/// order: the first file GitHub would request reviews from wins; when every
/// file present is unusable, the first one found is kept, so that "found but
/// unusable" stays distinguishable from "absent".
#[derive(Debug, Clone)]
pub struct CodeownersSearch {
    /// How many candidate paths there are.
    pub path_count: usize,
    /// How many have been fetched.
    pub tried: usize,
    /// The first file found so far, usable or not.
    pub fallback: Option<String>,
}


/// The file a search settles on, given the contents fetched at the
/// remaining candidate paths (`None` where no file exists) and the first
/// file found before them.
pub open spec fn resolved(fetched: Seq<Option<Seq<char>>>, fallback: Option<Seq<char>>) -> Option<
    Seq<char>,
>
    decreases fetched.len(),
{
    if fetched.len() == 0 {
        fallback
    } else {
        match fetched[0] {
            Some(c) => if usable_rule(c) {
                Some(c)
            } else {
                resolved(
                    fetched.drop_first(),
                    if fallback is Some {
                        fallback
                    } else {
                        Some(c)
                    },
                )
            },
            None => resolved(fetched.drop_first(), fallback),
        }
    }
}

/// The number of paths a search fetches: up to and including the first
/// usable file, or all of them.
pub open spec fn fetch_count(fetched: Seq<Option<Seq<char>>>) -> nat
    decreases fetched.len(),
{
    if fetched.len() == 0 {
        0
    } else if fetched[0] matches Some(c) && usable_rule(c) {
        1
    } else {
        1 + fetch_count(fetched.drop_first())
    }
}

impl CodeownersSearch {
    /// A search over `path_count` candidate paths, none fetched yet.
    pub fn new(path_count: usize) -> (s: Self)
        ensures
            s.path_count == path_count,
            s.tried == 0,
            s.fallback is None,
    {
        CodeownersSearch { path_count, tried: 0, fallback: None }
    }

    /// The next step: fetch the next candidate, or finish with the first file found.
    pub fn next_action(&self) -> (a: SearchAction)
        requires
            self.tried <= self.path_count,
        ensures
            self.tried < self.path_count ==> a == SearchAction::Fetch(self.tried),
            self.tried == self.path_count ==> (a matches SearchAction::Finish(f) && string_opt(f)
                == string_opt(self.fallback)),
    {
        if self.tried < self.path_count {
            SearchAction::Fetch(self.tried)
        } else {
            SearchAction::Finish(self.fallback.clone())
        }
    }

    /// Take in what was fetched at candidate `tried` (`None` when no file
    /// exists there) and say what to do next. A usable file ends the search.
    pub fn record(self, content: Option<String>) -> (r: (Self, SearchAction))
        requires
            self.tried < self.path_count,
        ensures
            r.0.path_count == self.path_count,
            match content {
                Some(c) if usable_rule(c@) => r.1 matches SearchAction::Finish(Some(f)) && f@ == c@,
                _ => {
                    &&& r.0.tried == self.tried + 1
                    &&& string_opt(r.0.fallback) == if self.fallback is Some {
                        string_opt(self.fallback)
                    } else {
                        string_opt(content)
                    }
                    &&& r.0.tried < r.0.path_count ==> r.1 == SearchAction::Fetch(r.0.tried)
                    &&& r.0.tried == r.0.path_count ==> (r.1 matches SearchAction::Finish(f)
                        && string_opt(f) == string_opt(r.0.fallback))
                },
            },
    {
        let usable = match &content {
            Some(c) => has_usable_rule(c.as_str()),
            None => false,
        };
        if usable {
            let path_count = self.path_count;
            let tried = self.tried;
            let fallback = self.fallback;
            return (CodeownersSearch { path_count, tried, fallback }, SearchAction::Finish(content));
        }
        let fallback = match self.fallback {
            Some(f) => Some(f),
            None => content,
        };
        let next = CodeownersSearch { path_count: self.path_count, tried: self.tried + 1, fallback };
        let action = next.next_action();
        (next, action)
    }
}

/// The views of fetched contents.
pub open spec fn fetched_views(f: Seq<Option<String>>) -> Seq<Option<Seq<char>>> {
    f.map_values(|o: Option<String>| string_opt(o))
}

/// Run a search over the contents found at each candidate path, in
/// precedence order (`None` where no file exists). Returns the file to use
/// and how many paths were looked up: the search stops at the first usable
/// file, else keeps the first file found, else finds none.
pub fn resolve_codeowners(fetched: &[Option<String>]) -> (r: (Option<String>, usize))
    ensures
        string_opt(r.0) == resolved(fetched_views(fetched@), None),
        r.1 == fetch_count(fetched_views(fetched@)),
{
    let ghost fv = fetched_views(fetched@);
    let mut search = CodeownersSearch::new(fetched.len());
    let mut action = search.next_action();
    assert(fv.skip(0) =~= fv);
    while search.tried < fetched.len()
        invariant
            search.path_count == fetched@.len(),
            search.tried <= fetched@.len(),
            fv == fetched_views(fetched@),
            search.tried < fetched@.len() ==> action == SearchAction::Fetch(search.tried),
            search.tried == fetched@.len() ==> (action matches SearchAction::Finish(f) && string_opt(
                f,
            ) == string_opt(search.fallback)),
            resolved(fv, None) == resolved(fv.skip(search.tried as int), string_opt(search.fallback)),
            fetch_count(fv) == search.tried + fetch_count(fv.skip(search.tried as int)),
        decreases fetched.len() - search.tried,
    {
        let i = search.tried;
        let content = fetched[i].clone();
        let ghost rest = fv.skip(i as int);
        assert(rest[0] == string_opt(content));
        assert(rest.drop_first() =~= fv.skip(i + 1));
        let usable = match &content {
            Some(c) => has_usable_rule(c.as_str()),
            None => false,
        };
        let (next, act) = search.record(content);
        if usable {
            return (match act {
                SearchAction::Finish(f) => f,
                SearchAction::Fetch(_) => None,
            }, i + 1);
        }
        search = next;
        action = act;
    }
    assert(fv.skip(fetched@.len() as int) =~= seq![]);
    match action {
        SearchAction::Finish(f) => (f, fetched.len()),
        SearchAction::Fetch(_) => (None, fetched.len()),
    }
}

/// The slugs of the teams that hold `admin` permission, in order. Each entry
/// is a team slug with its permission name.
pub fn admin_team_slugs(teams: &[(String, String)]) -> (r: Vec<String>)
    ensures
        views(r@) == admin_slugs(teams@),
{
    let mut r: Vec<String> = Vec::new();
    let mut i: usize = 0;
    let admin = "admin".to_owned();
    assert(teams@.take(0) =~= seq![]);
    assert(views(r@) =~= seq![]);
    while i < teams.len()
        invariant
            i <= teams@.len(),
            admin@ == "admin"@,
            views(r@) == admin_slugs(teams@.take(i as int)),
        decreases teams.len() - i,
    {
        assert(teams@.take(i + 1).drop_last() =~= teams@.take(i as int));
        assert(teams@.take(i + 1).last() == teams@[i as int]);
        if teams[i].1.eq(&admin) {
            let ghost before = views(r@);
            r.push(teams[i].0.clone());
            assert(views(r@) =~= before.push(teams@[i as int].0@));
        }
        i = i + 1;
    }
    assert(teams@.take(teams@.len() as int) =~= teams@);
    r
}

/// The slugs of the entries whose permission is `admin`, in order.
pub open spec fn admin_slugs(teams: Seq<(String, String)>) -> Seq<Seq<char>>
    decreases teams.len(),
{
    if teams.len() == 0 {
        seq![]
    } else if teams.last().1@ == "admin"@ {
        admin_slugs(teams.drop_last()).push(teams.last().0@)
    } else {
        admin_slugs(teams.drop_last())
    }
}

/// The first usable file in precedence order is the one used, whatever the
/// later paths hold, and no path after it is looked up.
pub proof fn law_first_usable_file_wins(fetched: Seq<Option<Seq<char>>>, i: int, fallback: Option<Seq<char>>)
    requires
        0 <= i < fetched.len(),
        fetched[i] matches Some(c) && usable_rule(c),
        forall|j: int| 0 <= j < i ==> !(#[trigger] fetched[j] matches Some(c) && usable_rule(c)),
    ensures
        resolved(fetched, fallback) == fetched[i],
        fetch_count(fetched) == i + 1,
    decreases i,
{
    if i > 0 {
        assert(!(fetched[0] matches Some(c) && usable_rule(c)));
        let rest = fetched.drop_first();
        assert forall|j: int| 0 <= j < i - 1 implies !(#[trigger] rest[j] matches Some(c) && usable_rule(
            c,
        )) by {
            assert(rest[j] == fetched[j + 1]);
        }
        assert(rest[i - 1] == fetched[i]);
        law_first_usable_file_wins(
            rest,
            i - 1,
            match fetched[0] {
                Some(c) => if fallback is Some {
                    fallback
                } else {
                    Some(c)
                },
                None => fallback,
            },
        );
    }
}

/// The cache keys of a repo's sources: its CODEOWNERS file, its catalog
/// file and its admin teams.
pub open spec fn source_keys(org: Seq<char>, name: Seq<char>) -> (Seq<char>, Seq<char>, Seq<char>) {
    (
        "content_"@ + org + "_"@ + name + "_codeowners_v2"@,
        "content_"@ + org + "_"@ + name + "_catalog"@,
        "admin_teams_"@ + org + "_"@ + name,
    )
}

/// The cache keys a repo's sources are read from and written to: one key
/// per source, the same for reading and writing.
pub fn source_cache_keys(org: &str, name: &str) -> (k: (String, String, String))
    ensures
        (k.0@, k.1@, k.2@) == source_keys(org@, name@),
{
    let mut co = "content_".to_owned();
    co.append(org);
    co.append("_");
    co.append(name);
    co.append("_codeowners_v2");
    let mut cat = "content_".to_owned();
    cat.append(org);
    cat.append("_");
    cat.append(name);
    cat.append("_catalog");
    let mut admin = "admin_teams_".to_owned();
    admin.append(org);
    admin.append("_");
    admin.append(name);
    (co, cat, admin)
}

/// With no usable file among the rest, the search keeps the fallback it has
/// and looks at every path.
proof fn lemma_nothing_usable_keeps_fallback(fetched: Seq<Option<Seq<char>>>, fallback: Option<Seq<char>>)
    requires
        fallback is Some,
        forall|j: int| 0 <= j < fetched.len() ==> !(#[trigger] fetched[j] matches Some(c) && usable_rule(c)),
    ensures
        resolved(fetched, fallback) == fallback,
        fetch_count(fetched) == fetched.len(),
    decreases fetched.len(),
{
    if fetched.len() > 0 {
        let rest = fetched.drop_first();
        assert(!(fetched[0] matches Some(c) && usable_rule(c)));
        assert forall|j: int| 0 <= j < rest.len() implies !(#[trigger] rest[j] matches Some(c) && usable_rule(
            c,
        )) by {
            assert(rest[j] == fetched[j + 1]);
        }
        lemma_nothing_usable_keeps_fallback(rest, fallback);
    }
}

/// When no file is usable, the first file found is kept (`None` when no
/// path holds a file), and every path is looked up.
pub proof fn law_first_found_kept_when_none_usable(fetched: Seq<Option<Seq<char>>>, i: int)
    requires
        forall|j: int| 0 <= j < fetched.len() ==> !(#[trigger] fetched[j] matches Some(c) && usable_rule(c)),
        0 <= i <= fetched.len(),
        forall|j: int| 0 <= j < i ==> (#[trigger] fetched[j]) is None,
        i == fetched.len() || fetched[i] is Some,
    ensures
        resolved(fetched, None) == if i < fetched.len() {
            fetched[i]
        } else {
            None
        },
        fetch_count(fetched) == fetched.len(),
    decreases fetched.len(),
{
    if fetched.len() > 0 {
        let rest = fetched.drop_first();
        assert forall|j: int| 0 <= j < rest.len() implies !(#[trigger] rest[j] matches Some(c) && usable_rule(
            c,
        )) by {
            assert(rest[j] == fetched[j + 1]);
        }
        assert(!(fetched[0] matches Some(c) && usable_rule(c)));
        if i == 0 {
            lemma_nothing_usable_keeps_fallback(rest, fetched[0]);
        } else {
            assert forall|j: int| 0 <= j < i - 1 implies (#[trigger] rest[j]) is None by {
                assert(rest[j] == fetched[j + 1]);
            }
            if i < fetched.len() {
                assert(rest[i - 1] == fetched[i]);
            }
            law_first_found_kept_when_none_usable(rest, i - 1);
        }
    }
}

} // verus!
