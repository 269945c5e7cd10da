//! Reading the top-level `*` rule of a CODEOWNERS file.
use vstd::prelude::*;

use crate::text::{
    chars_of, contains_string, find_char, find_in, is_whitespace, lines, lines_from, pieces,
    string_from_range, tokens, tokens_from, tokens_in, valid_ranges, views,
};

verus! {

/// Owners collected so far from a rule: the `@` names seen, the teams and the users.
pub type OwnerAcc = (Seq<Seq<char>>, Seq<Seq<char>>, Seq<Seq<char>>);

/// When `line` is a `*` rule, the tokens that follow the `*`.
///
/// A blank line has no token, and a comment's first token begins with `#`,
/// so neither is ever a rule.
pub open spec fn rule_owners(line: Seq<char>) -> Option<Seq<Seq<char>>> {
    let t = tokens(line);
    if t.len() > 0 && t[0] == seq!['*'] {
        Some(t.drop_first())
    } else {
        None
    }
}

/// The owner tokens of the first `*` rule among `ls`.
pub open spec fn first_rule(ls: Seq<Seq<char>>) -> Option<Seq<Seq<char>>>
    decreases ls.len(),
{
    if ls.len() == 0 {
        None
    } else {
        match rule_owners(ls[0]) {
            Some(o) => Some(o),
            None => first_rule(ls.drop_first()),
        }
    }
}

/// One owner token taken into the collection: an `@name` not seen before is a
/// team when it holds a `/` (the part after the first `/` is kept) and a user
/// otherwise; other tokens are ignored.
pub open spec fn owner_step(st: OwnerAcc, part: Seq<char>) -> OwnerAcc {
    if part.len() > 0 && part[0] == '@' {
        let owner = part.drop_first();
        if st.0.contains(owner) {
            st
        } else {
            let k = find_char(owner, '/');
            if k < owner.len() {
                (st.0.push(owner), st.1.push(owner.skip(k + 1)), st.2)
            } else {
                (st.0.push(owner), st.1, st.2.push(owner))
            }
        }
    } else {
        st
    }
}

/// The owners collected from `parts`, left to right.
pub open spec fn owners_of(parts: Seq<Seq<char>>) -> OwnerAcc
    decreases parts.len(),
{
    if parts.len() == 0 {
        (seq![], seq![], seq![])
    } else {
        owner_step(owners_of(parts.drop_last()), parts.last())
    }
}

/// The teams and users of the first `*` rule of `content`, or `None` when it has none.
pub open spec fn wildcard_rule(content: Seq<char>) -> Option<(Seq<Seq<char>>, Seq<Seq<char>>)> {
    match first_rule(lines(content)) {
        Some(parts) => Some((owners_of(parts).1, owners_of(parts).2)),
        None => None,
    }
}

/// GitHub would request a review from someone `content` names: its `*` rule names somebody.
pub open spec fn usable_rule(content: Seq<char>) -> bool {
    match wildcard_rule(content) {
        Some(o) => o.0.len() > 0 || o.1.len() > 0,
        None => false,
    }
}

/// The teams of the `*` rule of `content`, deduplicated, preserving order;
/// none when there is no rule.
pub open spec fn rule_teams(content: Seq<char>) -> Seq<Seq<char>> {
    match wildcard_rule(content) {
        Some(o) => dedup(o.0),
        None => seq![],
    }
}

/// `xs` with each name kept at its first occurrence only, in order.
pub open spec fn dedup(xs: Seq<Seq<char>>) -> Seq<Seq<char>>
    decreases xs.len(),
{
    if xs.len() == 0 {
        seq![]
    } else {
        let r = dedup(xs.drop_last());
        if r.contains(xs.last()) {
            r
        } else {
            r.push(xs.last())
        }
    }
}

/// What CODEOWNERS says about a repo, as far as reconciliation cares.
#[derive(Debug, Clone, PartialEq, Eq)]
pub enum CodeownersState {
    /// No CODEOWNERS file at any candidate path.
    Absent,
    /// A file exists but names nobody to request a review from, so it owns nothing in practice.
    Unusable,
    /// A usable rule was found. `teams` is empty when the rule names only
    /// individual users, which is valid but gives nothing to reconcile against.
    Owned { teams: Vec<String> },
}

/// Owners named on the `*` rule, split by kind.
#[derive(Debug, Default, PartialEq, Eq)]
pub struct WildcardOwners {
    /// `@org/team` entries, with the `@org/` prefix stripped.
    pub teams: Vec<String>,
    /// `@username` entries, with the `@` stripped.
    pub users: Vec<String>,
}

impl View for WildcardOwners {
    type V = (Seq<Seq<char>>, Seq<Seq<char>>);

    open spec fn view(&self) -> (Seq<Seq<char>>, Seq<Seq<char>>) {
        (views(self.teams@), views(self.users@))
    }
}

impl WildcardOwners {
    /// The rule names nobody.
    pub fn is_empty(&self) -> (b: bool)
        ensures
            b == (self@.0.len() == 0 && self@.1.len() == 0),
    {
        self.teams.len() == 0 && self.users.len() == 0
    }
}

impl CodeownersState {
    /// The teams the state carries: those of an owned file, none otherwise.
    pub open spec fn team_views(self) -> Seq<Seq<char>> {
        match self {
            CodeownersState::Owned { teams } => views(teams@),
            _ => seq![],
        }
    }

    /// Classify the selected CODEOWNERS file, or its absence.
    pub fn from_content(content: Option<&str>) -> (r: Self)
        ensures
            match content {
                None => r == CodeownersState::Absent,
                Some(c) => if usable_rule(c@) {
                    r is Owned && r.team_views() == rule_teams(c@)
                } else {
                    r == CodeownersState::Unusable
                },
            },
    {
        match content {
            None => CodeownersState::Absent,
            Some(c) => {
                if has_usable_rule(c) {
                    CodeownersState::Owned { teams: extract_teams(c) }
                } else {
                    CodeownersState::Unusable
                }
            },
        }
    }

    /// The teams of an owned file; empty for an absent or unusable one.
    pub fn teams(&self) -> (r: &[String])
        ensures
            views(r@) == self.team_views(),
    {
        match self {
            CodeownersState::Owned { teams } => teams.as_slice(),
            _ => {
                let r: &[String] = &[];
                assert(views(r@) =~= seq![]);
                r
            },
        }
    }
}

/// When `v[a..b]` is a `*` rule line, the ranges of the tokens after the `*`.
fn rule_in_line(v: &Vec<char>, a: usize, b: usize) -> (r: Option<Vec<(usize, usize)>>)
    requires
        a <= b <= v.len(),
    ensures
        r is Some <==> rule_owners(v@.subrange(a as int, b as int)) is Some,
        r matches Some(p) ==> {
            &&& valid_ranges(p@, v@.len() as int)
            &&& forall|k: int| 0 <= k < p@.len() ==> #[trigger] p@[k].0 < p@[k].1
            &&& pieces(v@, p@) == rule_owners(v@.subrange(a as int, b as int))->0
        },
{
    let toks = tokens_in(v, a, b);
    let ghost t = tokens(v@.subrange(a as int, b as int));
    if toks.len() > 0 && toks[0].1 == toks[0].0 + 1 && v[toks[0].0] == '*' {
        assert(t[0] == v@.subrange(toks@[0].0 as int, toks@[0].1 as int));
        assert(t[0] =~= seq!['*']);
        let mut rest: Vec<(usize, usize)> = Vec::new();
        let mut k: usize = 1;
        while k < toks.len()
            invariant
                1 <= k <= toks.len(),
                valid_ranges(toks@, v@.len() as int),
                forall|j: int| 0 <= j < toks@.len() ==> #[trigger] toks@[j].0 < toks@[j].1,
                rest@ =~= toks@.subrange(1, k as int),
            decreases toks.len() - k,
        {
            rest.push(toks[k]);
            k = k + 1;
        }
        assert(rest@ =~= toks@.drop_first());
        assert(pieces(v@, rest@) =~= t.drop_first());
        Some(rest)
    } else {
        if toks.len() > 0 {
            proof {
                let p = v@.subrange(toks@[0].0 as int, toks@[0].1 as int);
                assert(t[0] == p);
                if p =~= seq!['*'] {
                    assert(p.len() == 1);
                    assert(p[0] == v@[toks@[0].0 as int]);
                }
            }
        }
        None
    }
}

/// The owners named by the token ranges `parts` of `v`.
fn collect_owners(v: &Vec<char>, parts: &Vec<(usize, usize)>) -> (o: WildcardOwners)
    requires
        valid_ranges(parts@, v@.len() as int),
        forall|k: int| 0 <= k < parts@.len() ==> #[trigger] parts@[k].0 < parts@[k].1,
    ensures
        o@ == (owners_of(pieces(v@, parts@)).1, owners_of(pieces(v@, parts@)).2),
{
    let ghost ps = pieces(v@, parts@);
    let mut seen: Vec<String> = Vec::new();
    let mut teams: Vec<String> = Vec::new();
    let mut users: Vec<String> = Vec::new();
    let mut k: usize = 0;
    assert(ps.take(0) =~= seq![]);
    assert(views(seen@) =~= seq![]);
    assert(views(teams@) =~= seq![]);
    assert(views(users@) =~= seq![]);
    while k < parts.len()
        invariant
            k <= parts.len(),
            ps == pieces(v@, parts@),
            valid_ranges(parts@, v@.len() as int),
            forall|j: int| 0 <= j < parts@.len() ==> #[trigger] parts@[j].0 < parts@[j].1,
            (views(seen@), views(teams@), views(users@)) == owners_of(ps.take(k as int)),
        decreases parts.len() - k,
    {
        let a = parts[k].0;
        let b = parts[k].1;
        let ghost part = v@.subrange(a as int, b as int);
        let ghost before = (views(seen@), views(teams@), views(users@));
        assert(ps.take(k + 1).drop_last() =~= ps.take(k as int));
        assert(ps.take(k + 1).last() == part);
        assert(part[0] == v@[a as int]);
        if v[a] == '@' {
            let owner = string_from_range(v, a + 1, b);
            assert(part.drop_first() =~= owner@);
            if !contains_string(seen.as_slice(), &owner) {
                let slash = find_in(v, a + 1, b, '/');
                assert(find_char(owner@, '/') == slash - (a + 1));
                if slash < b {
                    let team = string_from_range(v, slash + 1, b);
                    assert(owner@.skip(slash - (a + 1) + 1) =~= team@);
                    teams.push(team);
                    assert(views(teams@) =~= before.1.push(team@));
                } else {
                    users.push(owner.clone());
                    assert(views(users@) =~= before.2.push(owner@));
                }
                seen.push(owner);
                assert(views(seen@) =~= before.0.push(part.drop_first()));
            }
        }
        k = k + 1;
    }
    assert(ps.take(parts.len() as int) =~= ps);
    WildcardOwners { teams, users }
}

/// Parse the top-level `* ...` rule from CODEOWNERS content.
///
/// Returns `None` when the file has no `*` rule at all — an empty file, or one
/// that lost its path pattern and lists bare owners. GitHub requests no review
/// because of such a file either. A rule that is present but
/// names nobody yields an empty `WildcardOwners`.
///
/// Only the first `*` rule is considered; a repeated `@owner` counts once.
pub fn parse_wildcard(content: &str) -> (r: Option<WildcardOwners>)
    ensures
        r is None <==> wildcard_rule(content@) is None,
        r matches Some(o) ==> wildcard_rule(content@) == Some(o@),
{
    let v = chars_of(content);
    let n = v.len();
    let mut i: usize = 0;
    let mut start: usize = 0;
    assert(v@.subrange(0, n as int) =~= v@);
    assert(v@.subrange(0, 0) =~= seq![]);
    while i <= n
        invariant
            start <= i <= n,
            n == v@.len(),
            v@ == content@,
            first_rule(lines(v@)) == first_rule(
                lines_from(v@.subrange(i as int, n as int), v@.subrange(start as int, i as int)),
            ),
        decreases n + 1 - i,
    {
        let ghost rest = v@.subrange(i as int, n as int);
        let ghost cur = v@.subrange(start as int, i as int);
        if i == n || v[i] == '\n' {
            let ghost later = if i < n {
                lines_from(v@.subrange(i + 1, n as int), seq![])
            } else {
                seq![]
            };
            if i < n {
                assert(rest[0] == v@[i as int]);
                assert(rest.drop_first() =~= v@.subrange(i + 1, n as int));
            } else {
                assert(rest =~= seq![]);
            }
            assert(lines_from(rest, cur) =~= seq![cur] + later);
            assert((seq![cur] + later)[0] == cur);
            assert((seq![cur] + later).drop_first() =~= later);
            match rule_in_line(&v, start, i) {
                Some(parts) => {
                    let o = collect_owners(&v, &parts);
                    return Some(o);
                },
                None => {},
            }
            if i == n {
                assert(first_rule(later) is None);
                return None;
            }
            i = i + 1;
            start = i;
            assert(v@.subrange(start as int, i as int) =~= seq![]);
        } else {
            assert(rest[0] == v@[i as int]);
            assert(rest.drop_first() =~= v@.subrange(i + 1, n as int));
            assert(cur.push(v@[i as int]) =~= v@.subrange(start as int, i + 1));
            i = i + 1;
        }
    }
    None
}

/// True when GitHub would request at least one review because of this file.
pub fn has_usable_rule(content: &str) -> (b: bool)
    ensures
        b == usable_rule(content@),
{
    match parse_wildcard(content) {
        Some(o) => !o.is_empty(),
        None => false,
    }
}

/// Extract all top-level teams from CODEOWNERS content.
///
/// Looks for the `* @org/team-name` rule and strips the `@org/` prefix.
/// Returns all teams on the wildcard rule, deduplicated, preserving order.
/// Individual users on the rule are not teams and are not returned.
pub fn extract_teams(content: &str) -> (r: Vec<String>)
    ensures
        views(r@) == rule_teams(content@),
{
    let mut r: Vec<String> = Vec::new();
    assert(views(r@) =~= seq![]);
    match parse_wildcard(content) {
        Some(o) => {
            let ghost ts = views(o.teams@);
            let mut i: usize = 0;
            assert(ts.take(0) =~= seq![]);
            while i < o.teams.len()
                invariant
                    i <= o.teams@.len(),
                    ts == views(o.teams@),
                    views(r@) == dedup(ts.take(i as int)),
                decreases o.teams.len() - i,
            {
                assert(ts.take(i + 1).drop_last() =~= ts.take(i as int));
                assert(ts.take(i + 1).last() == o.teams@[i as int]@);
                if !contains_string(r.as_slice(), &o.teams[i]) {
                    let ghost before = views(r@);
                    r.push(o.teams[i].clone());
                    assert(views(r@) =~= before.push(o.teams@[i as int]@));
                }
                i = i + 1;
            }
            assert(ts.take(o.teams@.len() as int) =~= ts);
            r
        },
        None => r,
    }
}

proof fn lemma_lines_split(l: Seq<char>, r: Seq<char>, cur: Seq<char>)
    requires
        !l.contains('\n'),
    ensures
        lines_from(l + seq!['\n'] + r, cur) == seq![cur + l] + lines_from(r, seq![]),
    decreases l.len(),
{
    let s = l + seq!['\n'] + r;
    if l.len() == 0 {
        assert(s[0] == '\n');
        assert(s.drop_first() =~= r);
        assert(cur + l =~= cur);
    } else {
        assert(s[0] == l[0]);
        assert(l[0] != '\n') by {
            if l[0] == '\n' {
                assert(l.contains(l[0]));
            }
        }
        let t = l.drop_first();
        assert(!t.contains('\n')) by {
            if t.contains('\n') {
                let k = choose|k: int| 0 <= k < t.len() && t[k] == '\n';
                assert(l[k + 1] == '\n');
            }
        }
        assert(s.drop_first() =~= t + seq!['\n'] + r);
        lemma_lines_split(t, r, cur.push(l[0]));
        assert(cur.push(l[0]) + t =~= cur + l);
    }
}

proof fn lemma_single_line(l: Seq<char>, cur: Seq<char>)
    requires
        !l.contains('\n'),
    ensures
        lines_from(l, cur) == seq![cur + l],
    decreases l.len(),
{
    if l.len() == 0 {
        assert(cur + l =~= cur);
    } else {
        assert(l[0] != '\n') by {
            if l[0] == '\n' {
                assert(l.contains(l[0]));
            }
        }
        let t = l.drop_first();
        assert(!t.contains('\n')) by {
            if t.contains('\n') {
                let k = choose|k: int| 0 <= k < t.len() && t[k] == '\n';
                assert(l[k + 1] == '\n');
            }
        }
        lemma_single_line(t, cur.push(l[0]));
        assert(cur.push(l[0]) + t =~= cur + l);
    }
}

/// Only the first `*` rule counts: once a line is a `*` rule, nothing after
/// it changes what the file says.
pub proof fn law_first_rule_wins(line: Seq<char>, rest: Seq<char>)
    requires
        !line.contains('\n'),
        rule_owners(line) is Some,
    ensures
        wildcard_rule(line + seq!['\n'] + rest) == wildcard_rule(line),
{
    lemma_lines_split(line, rest, seq![]);
    lemma_single_line(line, seq![]);
    assert(seq![] + line =~= line);
    let ls = seq![line] + lines_from(rest, seq![]);
    assert(ls[0] == line);
}

/// A line that is not a `*` rule (a comment, a blank line, a path rule, a
/// bare owner list) before the rest of the file changes nothing.
pub proof fn law_other_lines_are_ignored(line: Seq<char>, rest: Seq<char>)
    requires
        !line.contains('\n'),
        rule_owners(line) is None,
    ensures
        wildcard_rule(line + seq!['\n'] + rest) == wildcard_rule(rest),
{
    lemma_lines_split(line, rest, seq![]);
    assert(seq![] + line =~= line);
    let ls = seq![line] + lines_from(rest, seq![]);
    assert(ls[0] == line);
    assert(ls.drop_first() =~= lines_from(rest, seq![]));
}

proof fn lemma_tokens_start_with(s: Seq<char>, cur: Seq<char>)
    requires
        cur.len() > 0,
    ensures
        tokens_from(s, cur).len() > 0,
        tokens_from(s, cur)[0].len() > 0,
        tokens_from(s, cur)[0][0] == cur[0],
    decreases s.len(),
{
    if s.len() > 0 && !is_whitespace(s[0]) {
        lemma_tokens_start_with(s.drop_first(), cur.push(s[0]));
    }
}

proof fn lemma_skip_blanks(w: Seq<char>, s: Seq<char>)
    requires
        forall|i: int| 0 <= i < w.len() ==> is_whitespace(#[trigger] w[i]),
    ensures
        tokens_from(w + s, seq![]) == tokens_from(s, seq![]),
    decreases w.len(),
{
    if w.len() > 0 {
        assert((w + s)[0] == w[0]);
        assert((w + s).drop_first() =~= w.drop_first() + s);
        lemma_skip_blanks(w.drop_first(), s);
        assert(seq![] + tokens_from(w.drop_first() + s, seq![]) =~= tokens_from(
            w.drop_first() + s,
            seq![],
        ));
    } else {
        assert(w + s =~= s);
    }
}

/// A comment line, whose first non-blank character is `#`, is never a `*` rule.
pub proof fn law_comments_are_not_rules(indent: Seq<char>, text: Seq<char>)
    requires
        forall|i: int| 0 <= i < indent.len() ==> is_whitespace(#[trigger] indent[i]),
    ensures
        rule_owners(indent + seq!['#'] + text) is None,
{
    let line = indent + seq!['#'] + text;
    assert(line =~= indent + (seq!['#'] + text));
    lemma_skip_blanks(indent, seq!['#'] + text);
    let s = seq!['#'] + text;
    assert(!is_whitespace('#'));
    assert(s.drop_first() =~= text);
    assert(seq![].push('#') =~= seq!['#']);
    lemma_tokens_start_with(text, seq!['#']);
    let t = tokens(line);
    assert(t[0][0] == '#');
    if t[0] == seq!['*'] {
        assert(t[0][0] == '*');
    }
}

proof fn lemma_owners_users_distinct(parts: Seq<Seq<char>>)
    ensures
        owners_of(parts).0.no_duplicates(),
        owners_of(parts).2.no_duplicates(),
        forall|i: int| 0 <= i < owners_of(parts).2.len() ==> owners_of(parts).0.contains(
            #[trigger] owners_of(parts).2[i],
        ),
    decreases parts.len(),
{
    if parts.len() > 0 {
        let prev = owners_of(parts.drop_last());
        lemma_owners_users_distinct(parts.drop_last());
        let p = parts.last();
        if p.len() > 0 && p[0] == '@' {
            let o = p.drop_first();
            if !prev.0.contains(o) {
                let now = owners_of(parts);
                assert(now.0 == prev.0.push(o));
                assert forall|a: int, b: int| 0 <= a < now.0.len() && 0 <= b < now.0.len() && a
                    != b implies now.0[a] != now.0[b] by {
                    if a == now.0.len() - 1 {
                        assert(prev.0.contains(now.0[b]) || b == a);
                    } else if b == now.0.len() - 1 {
                        assert(prev.0.contains(now.0[a]));
                    }
                }
                assert forall|i: int| 0 <= i < now.2.len() implies now.0.contains(#[trigger] now.2[i]) by {
                    if i < prev.2.len() {
                        assert(now.2[i] == prev.2[i]);
                        let k = choose|k: int| 0 <= k < prev.0.len() && prev.0[k] == prev.2[i];
                        assert(now.0[k] == prev.2[i]);
                    } else {
                        assert(now.0[now.0.len() - 1] == o);
                    }
                }
                if now.2.len() > prev.2.len() {
                    assert(now.2 == prev.2.push(o));
                    assert forall|a: int, b: int| 0 <= a < now.2.len() && 0 <= b < now.2.len() && a
                        != b implies now.2[a] != now.2[b] by {
                        if a == now.2.len() - 1 {
                            assert(prev.0.contains(now.2[b]));
                        } else if b == now.2.len() - 1 {
                            assert(prev.0.contains(now.2[a]));
                        }
                    }
                }
            }
        }
    }
}

/// Each user of the rule is listed once, however often the rule repeats them.
pub proof fn law_users_listed_once(content: Seq<char>)
    ensures
        wildcard_rule(content) matches Some(o) ==> o.1.no_duplicates(),
{
    match first_rule(lines(content)) {
        Some(parts) => lemma_owners_users_distinct(parts),
        None => {},
    }
}

proof fn lemma_dedup(xs: Seq<Seq<char>>)
    ensures
        dedup(xs).no_duplicates(),
        forall|i: int| 0 <= i < dedup(xs).len() ==> xs.contains(#[trigger] dedup(xs)[i]),
    decreases xs.len(),
{
    if xs.len() > 0 {
        let prev = xs.drop_last();
        lemma_dedup(prev);
        let r = dedup(prev);
        let now = dedup(xs);
        assert forall|i: int| 0 <= i < now.len() implies xs.contains(#[trigger] now[i]) by {
            if i < r.len() {
                assert(now[i] == r[i]);
                let k = choose|k: int| 0 <= k < prev.len() && prev[k] == r[i];
                assert(xs[k] == prev[k]);
            } else {
                assert(now[i] == xs[xs.len() - 1]);
            }
        }
        if !r.contains(xs.last()) {
            assert forall|a: int, b: int|
                0 <= a < now.len() && 0 <= b < now.len() && a != b implies now[a] != now[b] by {
                if a == now.len() - 1 {
                    assert(now[b] == r[b]);
                } else if b == now.len() - 1 {
                    assert(now[a] == r[a]);
                } else {
                    assert(now[a] == r[a] && now[b] == r[b]);
                }
            }
        }
    }
}

/// The teams `extract_teams` returns are deduplicated: each is listed once,
/// however many owners name it (`@a/x` and `@b/x` both give `x`), and each
/// is a team of the `*` rule.
pub proof fn law_teams_listed_once(content: Seq<char>)
    ensures
        rule_teams(content).no_duplicates(),
        forall|i: int|
            0 <= i < rule_teams(content).len() ==> (wildcard_rule(content) matches Some(o)
                && o.0.contains(#[trigger] rule_teams(content)[i])),
{
    match wildcard_rule(content) {
        Some(o) => lemma_dedup(o.0),
        None => {},
    }
}

/// A file that names nobody to request a review from has no teams: so the teams a
/// `CodeownersState` carries are always those `extract_teams` finds.
pub proof fn law_state_teams_match_extracted(content: Seq<char>)
    ensures
        (if usable_rule(content) {
            rule_teams(content)
        } else {
            seq![]
        }) == rule_teams(content),
{
}

} // verus!
