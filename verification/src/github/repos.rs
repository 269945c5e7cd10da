//! The org listing: which of the repos GitHub lists an audit covers, and
//! the cache key a listing is stored under.
use vstd::prelude::*;

use crate::cli::{RepoExclude, Visibility};
use crate::output::order::{is_permutation, key_lt, keys_before, stable_order, SortKey};
use crate::text::{join, join_strings, lex_lt, views};
use crate::timestamp::{parse_utc_seconds, parsed_utc};

verus! {

/// A repo as the org listing gives it: its name and its last push, in
/// seconds since the Unix epoch.
#[derive(Debug, Clone)]
pub struct RepoInfo {
    pub name: String,
    pub pushed_at: Option<i64>,
}

/// A repo as GitHub's listing describes it.
#[derive(Debug, Clone)]
pub struct RepoNode {
    pub name: String,
    /// The last push as GitHub writes it (RFC 3339).
    pub pushed_at: Option<String>,
    pub is_archived: bool,
    pub is_fork: bool,
    pub is_empty: bool,
    pub is_template: bool,
    pub is_mirror: bool,
    /// `PUBLIC`, `PRIVATE` or `INTERNAL`.
    pub visibility: String,
}

/// The exclusions in force: none when `none` is among them.
pub open spec fn active_exclusions(exclude: Seq<RepoExclude>) -> Seq<RepoExclude> {
    if exclude.contains(RepoExclude::Nothing) {
        seq![]
    } else {
        exclude
    }
}

/// How GitHub names a visibility.
pub open spec fn visibility_label(v: Visibility) -> Seq<char> {
    match v {
        Visibility::Public => "PUBLIC"@,
        Visibility::Private => "PRIVATE"@,
        Visibility::Internal => "INTERNAL"@,
    }
}

/// The listing keeps `n`: no exclusion in force applies to it, and its
/// visibility is one asked for (any, when none is).
pub open spec fn repo_listed(n: RepoNode, exclude: Seq<RepoExclude>, visibility: Seq<Visibility>) -> bool {
    let ex = active_exclusions(exclude);
    &&& !(n.is_archived && ex.contains(RepoExclude::Archived))
    &&& !(n.is_fork && ex.contains(RepoExclude::Forks))
    &&& !(n.is_empty && ex.contains(RepoExclude::Empty))
    &&& !(n.is_template && ex.contains(RepoExclude::Template))
    &&& !(n.is_mirror && ex.contains(RepoExclude::Mirror))
    &&& (visibility.len() == 0 || exists|i: int|
        0 <= i < visibility.len() && visibility_label(#[trigger] visibility[i]) == n.visibility@)
}

/// The last push of a listed repo, in seconds: `None` when GitHub gives none
/// or chrono cannot read it.
pub open spec fn node_push(n: RepoNode) -> Option<i64> {
    match n.pushed_at {
        Some(t) => parsed_utc(t@),
        None => None,
    }
}

/// The names and pushes of the repos the listing keeps, in listing order.
pub open spec fn kept_repos(
    nodes: Seq<RepoNode>,
    exclude: Seq<RepoExclude>,
    visibility: Seq<Visibility>,
) -> Seq<(Seq<char>, Option<i64>)>
    decreases nodes.len(),
{
    if nodes.len() == 0 {
        seq![]
    } else {
        let rest = kept_repos(nodes.drop_last(), exclude, visibility);
        let n = nodes.last();
        if repo_listed(n, exclude, visibility) {
            rest.push((n.name@, node_push(n)))
        } else {
            rest
        }
    }
}

/// Names and pushes of listed repos.
pub open spec fn info_views(v: Seq<RepoInfo>) -> Seq<(Seq<char>, Option<i64>)> {
    v.map_values(|r: RepoInfo| (r.name@, r.pushed_at))
}

fn excludes(xs: &[RepoExclude], x: RepoExclude) -> (b: bool)
    ensures
        b == xs@.contains(x),
{
    let mut i: usize = 0;
    while i < xs.len()
        invariant
            i <= xs@.len(),
            forall|k: int| 0 <= k < i ==> xs@[k] != x,
        decreases xs.len() - i,
    {
        if xs[i] == x {
            return true;
        }
        i = i + 1;
    }
    false
}

/// Whether `label` is GitHub's name for one of `visibility`.
fn visibility_matches(visibility: &[Visibility], label: &String) -> (b: bool)
    ensures
        b == exists|i: int|
            0 <= i < visibility@.len() && visibility_label(#[trigger] visibility@[i]) == label@,
{
    let mut i: usize = 0;
    while i < visibility.len()
        invariant
            i <= visibility@.len(),
            forall|k: int| 0 <= k < i ==> visibility_label(#[trigger] visibility@[k]) != label@,
        decreases visibility.len() - i,
    {
        let name = match visibility[i] {
            Visibility::Public => "PUBLIC".to_owned(),
            Visibility::Private => "PRIVATE".to_owned(),
            Visibility::Internal => "INTERNAL".to_owned(),
        };
        if name.eq(label) {
            return true;
        }
        i = i + 1;
    }
    false
}

/// Whether the listing keeps `node`.
pub fn keeps_repo(node: &RepoNode, exclude: &[RepoExclude], visibility: &[Visibility]) -> (b: bool)
    ensures
        b == repo_listed(*node, exclude@, visibility@),
{
    let none: &[RepoExclude] = &[];
    let ex = if excludes(exclude, RepoExclude::Nothing) {
        none
    } else {
        exclude
    };
    assert(ex@ == active_exclusions(exclude@));
    if node.is_archived && excludes(ex, RepoExclude::Archived) {
        return false;
    }
    if node.is_fork && excludes(ex, RepoExclude::Forks) {
        return false;
    }
    if node.is_empty && excludes(ex, RepoExclude::Empty) {
        return false;
    }
    if node.is_template && excludes(ex, RepoExclude::Template) {
        return false;
    }
    if node.is_mirror && excludes(ex, RepoExclude::Mirror) {
        return false;
    }
    visibility.len() == 0 || visibility_matches(visibility, &node.visibility)
}

/// The repos of a page of the listing that an audit covers, in order.
pub fn listed_repos(nodes: &[RepoNode], exclude: &[RepoExclude], visibility: &[Visibility]) -> (r: Vec<
    RepoInfo,
>)
    ensures
        info_views(r@) == kept_repos(nodes@, exclude@, visibility@),
{
    let mut r: Vec<RepoInfo> = Vec::new();
    let mut i: usize = 0;
    assert(nodes@.take(0) =~= seq![]);
    assert(info_views(r@) =~= seq![]);
    while i < nodes.len()
        invariant
            i <= nodes@.len(),
            info_views(r@) == kept_repos(nodes@.take(i as int), exclude@, visibility@),
        decreases nodes.len() - i,
    {
        assert(nodes@.take(i + 1).drop_last() =~= nodes@.take(i as int));
        assert(nodes@.take(i + 1).last() == nodes@[i as int]);
        if keeps_repo(&nodes[i], exclude, visibility) {
            let pushed_at = match &nodes[i].pushed_at {
                Some(t) => parse_utc_seconds(t.as_str()),
                None => None,
            };
            let info = RepoInfo { name: nodes[i].name.clone(), pushed_at };
            let ghost before = info_views(r@);
            r.push(info);
            assert(info_views(r@) =~= before.push((nodes@[i as int].name@, node_push(nodes@[i as int]))));
        }
        i = i + 1;
    }
    assert(nodes@.take(nodes@.len() as int) =~= nodes@);
    r
}

/// The tag an exclusion adds to the cache key.
pub open spec fn exclude_tag(e: RepoExclude) -> Seq<char> {
    match e {
        RepoExclude::Archived => "archived"@,
        RepoExclude::Forks => "forks"@,
        RepoExclude::Empty => "empty"@,
        RepoExclude::Template => "template"@,
        RepoExclude::Mirror => "mirror"@,
        RepoExclude::Nothing => seq![],
    }
}

/// The tag a visibility adds to the cache key.
pub open spec fn visibility_tag(v: Visibility) -> Seq<char> {
    match v {
        Visibility::Public => "public"@,
        Visibility::Private => "private"@,
        Visibility::Internal => "internal"@,
    }
}

/// The tags of the exclusions in force.
pub open spec fn exclusion_tags(exclude: Seq<RepoExclude>) -> Seq<Seq<char>> {
    active_exclusions(exclude).map_values(|e: RepoExclude| exclude_tag(e))
}

/// The tags of the visibilities.
pub open spec fn visibility_tags(visibility: Seq<Visibility>) -> Seq<Seq<char>> {
    visibility.map_values(|v: Visibility| visibility_tag(v))
}

/// `order` lists `names` in ascending order.
pub open spec fn ascending(names: Seq<Seq<char>>, order: Seq<usize>) -> bool {
    &&& is_permutation(order, names.len())
    &&& forall|i: int, j: int|
        0 <= i < j < order.len() ==> !lex_lt(
            #[trigger] names[order[j] as int],
            #[trigger] names[order[i] as int],
        )
}

/// The names `order` lists.
pub open spec fn picked(names: Seq<Seq<char>>, order: Seq<usize>) -> Seq<Seq<char>> {
    order.map_values(|i: usize| names[i as int])
}

/// The cache key of a listing: `repos_<org>_ex_<exclusions>_vis_<visibilities>`,
/// the tags sorted and joined by `_`, the visibilities `all` when none is given.
pub open spec fn listing_key(org: Seq<char>, ex: Seq<Seq<char>>, vis: Seq<Seq<char>>) -> Seq<char> {
    "repos_"@ + org + "_ex_"@ + join(ex, "_"@) + "_vis_"@ + if vis.len() == 0 {
        "all"@
    } else {
        join(vis, "_"@)
    }
}

/// `names` in ascending order.
fn sort_names(names: &Vec<String>) -> (r: Vec<String>)
    ensures
        exists|order: Seq<usize>|
            #![trigger picked(views(names@), order)]
            ascending(views(names@), order) && views(r@) == picked(views(names@), order),
{
    let ghost ns = views(names@);
    let mut keys: Vec<Vec<SortKey>> = Vec::new();
    let mut i: usize = 0;
    while i < names.len()
        invariant
            i <= names@.len(),
            keys@.len() == i,
            forall|j: int| 0 <= j < i ==> (#[trigger] keys@[j])@ == seq![SortKey::Text(names@[j])],
        decreases names.len() - i,
    {
        let mut k: Vec<SortKey> = Vec::new();
        k.push(SortKey::Text(names[i].clone()));
        keys.push(k);
        i = i + 1;
    }
    let ghost ks = keys@.map_values(|v: Vec<SortKey>| v@);
    assert forall|a: int, b: int| 0 <= a < ks.len() && 0 <= b < ks.len() implies (#[trigger] ks[a]).len()
        == (#[trigger] ks[b]).len() by {
    }
    let order = stable_order(&keys);
    let ghost o = order@;
    proof {
        assert forall|i: int, j: int| 0 <= i < j < o.len() implies !lex_lt(
            #[trigger] ns[o[j] as int],
            #[trigger] ns[o[i] as int],
        ) by {
            let x = ks[o[j] as int];
            let y = ks[o[i] as int];
            assert(!keys_before(x, y));
            assert(x.drop_first() =~= seq![]);
            assert(y.drop_first() =~= seq![]);
            if lex_lt(ns[o[j] as int], ns[o[i] as int]) {
                assert(key_lt(x[0], y[0]));
            }
        }
    }
    let mut r: Vec<String> = Vec::new();
    let mut p: usize = 0;
    while p < order.len()
        invariant
            p <= o.len(),
            o == order@,
            ns == views(names@),
            forall|q: int| 0 <= q < o.len() ==> (#[trigger] o[q]) < names@.len(),
            views(r@) =~= picked(ns, o).take(p as int),
        decreases order.len() - p,
    {
        let ghost before = views(r@);
        r.push(names[order[p]].clone());
        assert(views(r@) =~= before.push(ns[o[p as int] as int]));
        p = p + 1;
    }
    assert(picked(ns, o).take(o.len() as int) =~= picked(ns, o));
    assert(ascending(ns, o));
    r
}

/// The cache key under which the listing for `org`, with these exclusions
/// and visibilities, is stored.
pub fn listing_cache_key(org: &str, exclude: &[RepoExclude], visibility: &[Visibility]) -> (k: String)
    ensures
        exists|eo: Seq<usize>, vo: Seq<usize>|
            #![trigger picked(exclusion_tags(exclude@), eo), picked(visibility_tags(visibility@), vo)]
            {
                &&& ascending(exclusion_tags(exclude@), eo)
                &&& ascending(visibility_tags(visibility@), vo)
                &&& k@ == listing_key(
                    org@,
                    picked(exclusion_tags(exclude@), eo),
                    picked(visibility_tags(visibility@), vo),
                )
            },
{
    let none: &[RepoExclude] = &[];
    let ex = if excludes(exclude, RepoExclude::Nothing) {
        none
    } else {
        exclude
    };
    let ghost et = exclusion_tags(exclude@);
    let ghost vt = visibility_tags(visibility@);
    let mut tags: Vec<String> = Vec::new();
    let mut i: usize = 0;
    while i < ex.len()
        invariant
            i <= ex@.len(),
            ex@ == active_exclusions(exclude@),
            et == exclusion_tags(exclude@),
            views(tags@) =~= et.take(i as int),
        decreases ex.len() - i,
    {
        let t = match ex[i] {
            RepoExclude::Archived => "archived".to_owned(),
            RepoExclude::Forks => "forks".to_owned(),
            RepoExclude::Empty => "empty".to_owned(),
            RepoExclude::Template => "template".to_owned(),
            RepoExclude::Mirror => "mirror".to_owned(),
            RepoExclude::Nothing => String::new(),
        };
        let ghost before = views(tags@);
        tags.push(t);
        assert(views(tags@) =~= before.push(et[i as int]));
        i = i + 1;
    }
    assert(et.take(ex@.len() as int) =~= et);
    let mut vtags: Vec<String> = Vec::new();
    let mut j: usize = 0;
    while j < visibility.len()
        invariant
            j <= visibility@.len(),
            vt == visibility_tags(visibility@),
            views(vtags@) =~= vt.take(j as int),
        decreases visibility.len() - j,
    {
        let t = match visibility[j] {
            Visibility::Public => "public".to_owned(),
            Visibility::Private => "private".to_owned(),
            Visibility::Internal => "internal".to_owned(),
        };
        let ghost before = views(vtags@);
        vtags.push(t);
        assert(views(vtags@) =~= before.push(vt[j as int]));
        j = j + 1;
    }
    assert(vt.take(visibility@.len() as int) =~= vt);
    let sorted_ex = sort_names(&tags);
    let sorted_vis = sort_names(&vtags);
    let mut k = String::new();
    k.append("repos_");
    k.append(org);
    k.append("_ex_");
    let joined = join_strings(sorted_ex.as_slice(), "_");
    k.append(joined.as_str());
    k.append("_vis_");
    if sorted_vis.len() == 0 {
        k.append("all");
    } else {
        let jv = join_strings(sorted_vis.as_slice(), "_");
        k.append(jv.as_str());
    }
    assert(k@ =~= listing_key(org@, views(sorted_ex@), views(sorted_vis@)));
    k
}

/// An excluded kind of repo is never listed: unless `none` is among the
/// exclusions, an archived, forked, empty, template or mirror repo is left
/// out whenever its kind is excluded; and a repo of no excluded kind whose
/// visibility is asked for (or when none is asked for) is listed.
pub proof fn law_excluded_kinds_are_left_out(
    n: RepoNode,
    exclude: Seq<RepoExclude>,
    visibility: Seq<Visibility>,
)
    ensures
        !exclude.contains(RepoExclude::Nothing) ==> {
            &&& n.is_archived && exclude.contains(RepoExclude::Archived) ==> !repo_listed(n, exclude, visibility)
            &&& n.is_fork && exclude.contains(RepoExclude::Forks) ==> !repo_listed(n, exclude, visibility)
            &&& n.is_empty && exclude.contains(RepoExclude::Empty) ==> !repo_listed(n, exclude, visibility)
            &&& n.is_template && exclude.contains(RepoExclude::Template) ==> !repo_listed(n, exclude, visibility)
            &&& n.is_mirror && exclude.contains(RepoExclude::Mirror) ==> !repo_listed(n, exclude, visibility)
        },
        (!n.is_archived && !n.is_fork && !n.is_empty && !n.is_template && !n.is_mirror && (
        visibility.len() == 0 || visibility.contains(Visibility::Public) && n.visibility@ == "PUBLIC"@
            || visibility.contains(Visibility::Private) && n.visibility@ == "PRIVATE"@
            || visibility.contains(Visibility::Internal) && n.visibility@ == "INTERNAL"@))
            ==> repo_listed(n, exclude, visibility),
        exclude.contains(RepoExclude::Nothing) && visibility.len() == 0 ==> repo_listed(
            n,
            exclude,
            visibility,
        ),
{
    if visibility.len() > 0 {
        if visibility.contains(Visibility::Public) && n.visibility@ == "PUBLIC"@ {
            let i = choose|i: int| 0 <= i < visibility.len() && visibility[i] == Visibility::Public;
            assert(visibility_label(visibility[i]) == n.visibility@);
        }
        if visibility.contains(Visibility::Private) && n.visibility@ == "PRIVATE"@ {
            let i = choose|i: int| 0 <= i < visibility.len() && visibility[i] == Visibility::Private;
            assert(visibility_label(visibility[i]) == n.visibility@);
        }
        if visibility.contains(Visibility::Internal) && n.visibility@ == "INTERNAL"@ {
            let i = choose|i: int| 0 <= i < visibility.len() && visibility[i] == Visibility::Internal;
            assert(visibility_label(visibility[i]) == n.visibility@);
        }
    }
}

/// The listing holds no repo of an excluded kind: every kept entry names a
/// node of no excluded kind.
pub proof fn law_listing_has_no_excluded_repo(
    nodes: Seq<RepoNode>,
    exclude: Seq<RepoExclude>,
    visibility: Seq<Visibility>,
    k: int,
)
    requires
        !exclude.contains(RepoExclude::Nothing),
        0 <= k < kept_repos(nodes, exclude, visibility).len(),
    ensures
        exists|j: int|
            0 <= j < nodes.len() && (#[trigger] nodes[j]).name@ == kept_repos(nodes, exclude, visibility)[k].0
                && !(nodes[j].is_archived && exclude.contains(RepoExclude::Archived))
                && !(nodes[j].is_fork && exclude.contains(RepoExclude::Forks))
                && !(nodes[j].is_empty && exclude.contains(RepoExclude::Empty))
                && !(nodes[j].is_template && exclude.contains(RepoExclude::Template))
                && !(nodes[j].is_mirror && exclude.contains(RepoExclude::Mirror)),
    decreases nodes.len(),
{
    let prev = nodes.drop_last();
    let rest = kept_repos(prev, exclude, visibility);
    if k < rest.len() {
        law_listing_has_no_excluded_repo(prev, exclude, visibility, k);
        let j = choose|j: int|
            0 <= j < prev.len() && (#[trigger] prev[j]).name@ == rest[k].0
                && !(prev[j].is_archived && exclude.contains(RepoExclude::Archived))
                && !(prev[j].is_fork && exclude.contains(RepoExclude::Forks))
                && !(prev[j].is_empty && exclude.contains(RepoExclude::Empty))
                && !(prev[j].is_template && exclude.contains(RepoExclude::Template))
                && !(prev[j].is_mirror && exclude.contains(RepoExclude::Mirror));
        assert(nodes[j] == prev[j]);
    } else {
        let j = nodes.len() - 1;
        assert(nodes[j] == nodes.last());
        law_excluded_kinds_are_left_out(nodes.last(), exclude, visibility);
    }
}

} // verus!
