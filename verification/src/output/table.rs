//! The org table: a title, a header and one padded row per repo, in the
//! order `--sort` asks; and the bare list of repo names.
use vstd::prelude::*;

use crate::output::order::{
    is_permutation, key_lt, keys_before, lemma_permutation_covers, same_width, stable_order,
    stably_ordered, time_lt, SortKey,
};
use crate::cli::SortOrder;
use crate::reconcile::types::{status_label, RepoOwnership};
use crate::text::{
    chars_of, decimal, join, join_strings, lex_lt, lowercase, push_char, push_decimal,
    string_from_range, string_opt, to_lowercase, views,
};
use crate::timestamp::{day_pattern, format_utc, utc_text};

verus! {

/// The widest a column gets; longer cells are cut short with `…`.
pub const MAX_COL_WIDTH: usize = 30;

/// Options controlling table rendering.
pub struct TableOptions {
    pub wide: bool,
    pub sort_columns: Vec<String>,
    pub team_filter: Option<String>,
}

/// A column of the org table.
#[derive(Clone, Copy, Debug, PartialEq, Eq, Structural)]
pub enum Column {
    Repo,
    Status,
    CatalogOwner,
    CodeownersTeams,
    LastPush,
    AdminTeams,
    Notes,
}

/// The heading of a column.
pub open spec fn column_header(c: Column) -> Seq<char> {
    match c {
        Column::Repo => "REPO"@,
        Column::Status => "STATUS"@,
        Column::CatalogOwner => "CATALOG OWNER"@,
        Column::CodeownersTeams => "CODEOWNERS TEAMS"@,
        Column::LastPush => "LAST PUSH"@,
        Column::AdminTeams => "ADMIN TEAMS"@,
        Column::Notes => "NOTES"@,
    }
}

/// The name `--sort` knows a column by.
pub open spec fn column_sort_key(c: Column) -> Seq<char> {
    match c {
        Column::Repo => "repo"@,
        Column::Status => "status"@,
        Column::CatalogOwner => "catalog-owner"@,
        Column::CodeownersTeams => "codeowners-teams"@,
        Column::LastPush => "last-push"@,
        Column::AdminTeams => "admin-teams"@,
        Column::Notes => "notes"@,
    }
}

impl Column {
    pub fn header(&self) -> (h: &'static str)
        ensures
            h@ == column_header(*self),
    {
        match self {
            Column::Repo => "REPO",
            Column::Status => "STATUS",
            Column::CatalogOwner => "CATALOG OWNER",
            Column::CodeownersTeams => "CODEOWNERS TEAMS",
            Column::LastPush => "LAST PUSH",
            Column::AdminTeams => "ADMIN TEAMS",
            Column::Notes => "NOTES",
        }
    }

    pub fn sort_key(&self) -> (k: &'static str)
        ensures
            k@ == column_sort_key(*self),
    {
        match self {
            Column::Repo => "repo",
            Column::Status => "status",
            Column::CatalogOwner => "catalog-owner",
            Column::CodeownersTeams => "codeowners-teams",
            Column::LastPush => "last-push",
            Column::AdminTeams => "admin-teams",
            Column::Notes => "notes",
        }
    }
}

/// The columns of the default table.
pub open spec fn default_column_list() -> Seq<Column> {
    seq![Column::Repo, Column::Status, Column::CatalogOwner, Column::CodeownersTeams, Column::LastPush]
}

/// The columns of the `--wide` table: the default ones, then admin teams and notes.
pub open spec fn wide_column_list() -> Seq<Column> {
    default_column_list() + seq![Column::AdminTeams, Column::Notes]
}

pub fn default_columns() -> (v: Vec<Column>)
    ensures
        v@ == default_column_list(),
{
    let mut v: Vec<Column> = Vec::new();
    v.push(Column::Repo);
    v.push(Column::Status);
    v.push(Column::CatalogOwner);
    v.push(Column::CodeownersTeams);
    v.push(Column::LastPush);
    assert(v@ =~= default_column_list());
    v
}

pub fn wide_columns() -> (v: Vec<Column>)
    ensures
        v@ == wide_column_list(),
{
    let mut v = default_columns();
    v.push(Column::AdminTeams);
    v.push(Column::Notes);
    assert(v@ =~= wide_column_list());
    v
}

/// The columns `UnicodeWidthStr::width` gives a string.
pub uninterp spec fn str_columns(s: Seq<char>) -> usize;

/// `UnicodeWidthStr::width`: the displayed width of `s`, in terminal
/// columns. The contract names the result (`str_columns`) and says nothing
/// more of it.
#[verifier::external_body]
fn text_width(s: &str) -> (w: usize)
    ensures
        w == str_columns(s@),
{
    unicode_width::UnicodeWidthStr::width(s)
}

/// The columns `UnicodeWidthChar::width` gives a character.
pub uninterp spec fn char_columns(c: char) -> Option<usize>;

/// `UnicodeWidthChar::width`: the displayed width of `c`, `None` for a
/// control character. The contract names the result (`char_columns`) and
/// says nothing more of it.
#[verifier::external_body]
fn char_width(c: char) -> (w: Option<usize>)
    ensures
        w == char_columns(c),
{
    unicode_width::UnicodeWidthChar::width(c)
}

/// The width a character adds when a cell is cut short: a control character adds none.
pub open spec fn char_cost(c: char) -> nat {
    match char_columns(c) {
        Some(w) => w as nat,
        None => 0,
    }
}

/// How many leading characters of `s` fit in `budget` columns: characters
/// are taken until the first that would overflow it.
pub open spec fn fitting_prefix(s: Seq<char>, budget: nat) -> nat
    decreases s.len(),
{
    if s.len() == 0 {
        0
    } else if char_cost(s[0]) > budget {
        0
    } else {
        1 + fitting_prefix(s.drop_first(), (budget - char_cost(s[0])) as nat)
    }
}

/// `s` cut to at most `max` columns: unchanged when it fits, otherwise the
/// characters that fit in `max - 1` columns followed by `…`.
pub open spec fn truncated(s: Seq<char>, max: nat) -> Seq<char> {
    if str_columns(s) <= max {
        s
    } else if max == 0 {
        seq![]
    } else {
        s.take(fitting_prefix(s, (max - 1) as nat) as int).push('\u{2026}')
    }
}

/// `s` padded with spaces on the right to `width` columns.
pub open spec fn padded(s: Seq<char>, width: nat) -> Seq<char> {
    if str_columns(s) >= width {
        s
    } else {
        s + Seq::new((width - str_columns(s)) as nat, |i: int| ' ')
    }
}

/// The cell for a list of teams: `-` when there is none.
pub open spec fn team_list_cell(ts: Seq<Seq<char>>) -> Seq<char> {
    if ts.len() == 0 {
        "-"@
    } else {
        join(ts, ", "@)
    }
}

/// The day of the last push, `-` when there is none.
pub open spec fn push_day(pushed_at: Option<i64>) -> Seq<char> {
    match pushed_at {
        Some(t) => match utc_text(t, day_pattern()) {
            Some(d) => d,
            None => "-"@,
        },
        None => "-"@,
    }
}

/// What a repo shows in a column.
pub open spec fn cell_text(r: RepoOwnership, c: Column) -> Seq<char> {
    match c {
        Column::Repo => r.repo_name@,
        Column::Status => status_label(r.alignment),
        Column::CatalogOwner => match r.catalog_owner {
            Some(o) => o@,
            None => "-"@,
        },
        Column::CodeownersTeams => team_list_cell(views(r.codeowners_teams@)),
        Column::LastPush => push_day(r.pushed_at),
        Column::AdminTeams => team_list_cell(views(r.admin_teams@)),
        Column::Notes => join(views(r.notes@), "; "@),
    }
}

/// The cells of a repo's row.
pub open spec fn row_cells(r: RepoOwnership, cols: Seq<Column>) -> Seq<Seq<char>> {
    cols.map_values(|c: Column| cell_text(r, c))
}

/// The column that `--sort`'s first entry names, lower-cased, if any.
pub open spec fn primary_sort(sort_columns: Seq<Seq<char>>) -> Option<Seq<char>> {
    if sort_columns.len() > 0 {
        Some(lowercase(sort_columns[0]))
    } else {
        None
    }
}

/// A heading as shown: with `↑` when the table is sorted by its column first.
pub open spec fn shown_header(c: Column, primary: Option<Seq<char>>) -> Seq<char> {
    if primary == Some(column_sort_key(c)) {
        column_header(c).push('\u{2191}')
    } else {
        column_header(c)
    }
}

/// The widest cell of column `i` over `rows`.
pub open spec fn widest_cell(rows: Seq<Seq<Seq<char>>>, i: int) -> nat
    decreases rows.len(),
{
    if rows.len() == 0 {
        0
    } else {
        let w = str_columns(rows.last()[i]) as nat;
        let m = widest_cell(rows.drop_last(), i);
        if w > m {
            w
        } else {
            m
        }
    }
}

pub open spec fn max_nat(a: nat, b: nat) -> nat {
    if a > b {
        a
    } else {
        b
    }
}

/// The width of column `i`: as wide as its heading and its widest cell, but
/// no wider than `MAX_COL_WIDTH`.
pub open spec fn column_width(
    c: Column,
    primary: Option<Seq<char>>,
    rows: Seq<Seq<Seq<char>>>,
    i: int,
) -> nat {
    let m = max_nat(
        max_nat(str_columns(column_header(c)) as nat, widest_cell(rows, i)),
        str_columns(shown_header(c, primary)) as nat,
    );
    if m > MAX_COL_WIDTH {
        MAX_COL_WIDTH as nat
    } else {
        m
    }
}

/// The columns a table shows.
pub open spec fn table_columns(wide: bool) -> Seq<Column> {
    if wide {
        wide_column_list()
    } else {
        default_column_list()
    }
}

/// The rows of `repos`, in their order.
pub open spec fn table_rows(repos: Seq<RepoOwnership>, cols: Seq<Column>) -> Seq<Seq<Seq<char>>> {
    repos.map_values(|r: RepoOwnership| row_cells(r, cols))
}

/// The width of each column.
pub open spec fn table_widths(
    cols: Seq<Column>,
    primary: Option<Seq<char>>,
    rows: Seq<Seq<Seq<char>>>,
) -> Seq<nat> {
    Seq::new(cols.len(), |i: int| column_width(cols[i], primary, rows, i))
}

/// `repos(<team filter, or all>)[<number of repos>]`.
pub open spec fn title_line(team_filter: Option<Seq<char>>, count: nat) -> Seq<char> {
    "repos("@ + match team_filter {
        Some(t) => t,
        None => "all"@,
    } + ")["@ + decimal(count) + "]"@
}

/// The headings, each padded to its column's width, two spaces apart.
pub open spec fn header_line(cols: Seq<Column>, primary: Option<Seq<char>>, widths: Seq<nat>) -> Seq<
    char,
> {
    join(Seq::new(cols.len(), |i: int| padded(shown_header(cols[i], primary), widths[i])), "  "@)
}

/// A row's cells, each cut and padded to its column's width, two spaces apart.
pub open spec fn data_line(cells: Seq<Seq<char>>, widths: Seq<nat>) -> Seq<char> {
    join(Seq::new(cells.len(), |i: int| padded(truncated(cells[i], widths[i]), widths[i])), "  "@)
}

/// The rows' lines, each ended by a newline.
pub open spec fn data_lines(rows: Seq<Seq<Seq<char>>>, widths: Seq<nat>) -> Seq<char>
    decreases rows.len(),
{
    if rows.len() == 0 {
        seq![]
    } else {
        data_lines(rows.drop_last(), widths) + data_line(rows.last(), widths) + "\n"@
    }
}

/// The table for `repos` (already in display order): title, header, rows,
/// then `footer` on a line of its own when it is not empty.
pub open spec fn table_text(
    repos: Seq<RepoOwnership>,
    wide: bool,
    sort_columns: Seq<Seq<char>>,
    team_filter: Option<Seq<char>>,
    footer: Seq<char>,
) -> Seq<char> {
    let cols = table_columns(wide);
    let primary = primary_sort(sort_columns);
    let rows = table_rows(repos, cols);
    let widths = table_widths(cols, primary, rows);
    title_line(team_filter, repos.len()) + "\n"@ + header_line(cols, primary, widths) + "\n"@
        + data_lines(rows, widths) + if footer.len() > 0 {
        footer + "\n"@
    } else {
        seq![]
    }
}

/// The repos in the order `order` lists them.
pub open spec fn reordered(repos: Seq<RepoOwnership>, order: Seq<usize>) -> Seq<RepoOwnership> {
    order.map_values(|i: usize| repos[i as int])
}

// --- Sorting ---

/// What a `--sort` entry asks to sort by.
#[derive(Clone, Copy, Debug, PartialEq, Eq, Structural)]
pub enum SortField {
    Repo,
    Status,
    CatalogOwner,
    CodeownersTeams,
    LastPush,
    AdminTeams,
    Notes,
    /// A name that is no column: it orders nothing.
    Unknown,
}

/// The field a (lower-cased) `--sort` entry names.
pub open spec fn field_named(name: Seq<char>) -> SortField {
    if name == "repo"@ {
        SortField::Repo
    } else if name == "status"@ {
        SortField::Status
    } else if name == "catalog-owner"@ {
        SortField::CatalogOwner
    } else if name == "codeowners-teams"@ {
        SortField::CodeownersTeams
    } else if name == "last-push"@ {
        SortField::LastPush
    } else if name == "admin-teams"@ {
        SortField::AdminTeams
    } else if name == "notes"@ {
        SortField::Notes
    } else {
        SortField::Unknown
    }
}

/// The fields `--sort` asks for: the repo name when it is empty.
pub open spec fn sort_fields(sort_columns: Seq<Seq<char>>) -> Seq<SortField> {
    if sort_columns.len() == 0 {
        seq![SortField::Repo]
    } else {
        sort_columns.map_values(|c: Seq<char>| field_named(lowercase(c)))
    }
}

/// The text a repo is sorted by in a text field: names and team lists
/// compare ignoring case, the status by its name, notes as they are.
pub open spec fn field_text(f: SortField, r: RepoOwnership) -> Seq<char> {
    match f {
        SortField::Repo => lowercase(r.repo_name@),
        SortField::Status => status_label(r.alignment),
        SortField::CatalogOwner => lowercase(
            match r.catalog_owner {
                Some(o) => o@,
                None => seq![],
            },
        ),
        SortField::CodeownersTeams => lowercase(join(views(r.codeowners_teams@), ", "@)),
        SortField::AdminTeams => lowercase(join(views(r.admin_teams@), ", "@)),
        SortField::Notes => join(views(r.notes@), "; "@),
        _ => seq![],
    }
}

/// Repo `a` sorts strictly before repo `b` on field `f`.
pub open spec fn field_before(f: SortField, a: RepoOwnership, b: RepoOwnership) -> bool {
    match f {
        SortField::LastPush => time_lt(a.pushed_at, b.pushed_at),
        SortField::Unknown => false,
        _ => lex_lt(field_text(f, a), field_text(f, b)),
    }
}

/// Repo `a` sorts strictly before repo `b`: the first field on which they
/// do not tie decides.
pub open spec fn repo_before(fields: Seq<SortField>, a: RepoOwnership, b: RepoOwnership) -> bool
    decreases fields.len(),
{
    if fields.len() == 0 {
        false
    } else if field_before(fields[0], a, b) {
        true
    } else if field_before(fields[0], b, a) {
        false
    } else {
        repo_before(fields.drop_first(), a, b)
    }
}

/// `order` lists the repos sorted by `fields`, repos that tie in their given order.
pub open spec fn sorted_order(
    repos: Seq<RepoOwnership>,
    fields: Seq<SortField>,
    order: Seq<usize>,
) -> bool {
    &&& order.len() == repos.len()
    &&& forall|i: int| 0 <= i < order.len() ==> (#[trigger] order[i]) < repos.len()
    &&& forall|i: int, j: int| 0 <= i < j < order.len() ==> order[i] != order[j]
    &&& forall|i: int, j: int|
        0 <= i < j < order.len() ==> !repo_before(
            fields,
            #[trigger] repos[order[j] as int],
            #[trigger] repos[order[i] as int],
        )
    &&& forall|i: int, j: int|
        0 <= i < j < order.len() && !repo_before(
            fields,
            #[trigger] repos[order[i] as int],
            #[trigger] repos[order[j] as int],
        ) ==> order[i] < order[j]
}

/// `k` is the key field `f` gives repo `r`.
pub open spec fn key_fits(k: SortKey, f: SortField, r: RepoOwnership) -> bool {
    match f {
        SortField::LastPush => k == SortKey::Time(r.pushed_at),
        SortField::Unknown => k is Nothing,
        _ => k matches SortKey::Text(s) && s@ == field_text(f, r),
    }
}

/// `keys` are the keys `fields` give repo `r`.
pub open spec fn keys_fit(keys: Seq<SortKey>, fields: Seq<SortField>, r: RepoOwnership) -> bool {
    &&& keys.len() == fields.len()
    &&& forall|k: int| 0 <= k < keys.len() ==> key_fits(#[trigger] keys[k], fields[k], r)
}

proof fn lemma_keys_decide(
    ka: Seq<SortKey>,
    kb: Seq<SortKey>,
    fields: Seq<SortField>,
    a: RepoOwnership,
    b: RepoOwnership,
)
    requires
        keys_fit(ka, fields, a),
        keys_fit(kb, fields, b),
    ensures
        keys_before(ka, kb) == repo_before(fields, a, b),
    decreases fields.len(),
{
    if fields.len() > 0 {
        assert(key_fits(ka[0], fields[0], a));
        assert(key_fits(kb[0], fields[0], b));
        assert(key_lt(ka[0], kb[0]) == field_before(fields[0], a, b));
        assert(key_lt(kb[0], ka[0]) == field_before(fields[0], b, a));
        assert forall|k: int| 0 <= k < ka.drop_first().len() implies key_fits(
            #[trigger] ka.drop_first()[k],
            fields.drop_first()[k],
            a,
        ) by {
            assert(key_fits(ka[k + 1], fields[k + 1], a));
        }
        assert forall|k: int| 0 <= k < kb.drop_first().len() implies key_fits(
            #[trigger] kb.drop_first()[k],
            fields.drop_first()[k],
            b,
        ) by {
            assert(key_fits(kb[k + 1], fields[k + 1], b));
        }
        lemma_keys_decide(ka.drop_first(), kb.drop_first(), fields.drop_first(), a, b);
    }
}

/// Whether two strings are the same text.
fn same_text(a: &String, b: &str) -> (r: bool)
    ensures
        r == (a@ == b@),
{
    let other = b.to_owned();
    a.eq(&other)
}

/// The field a `--sort` entry names.
fn field_for(name: &String) -> (f: SortField)
    ensures
        f == field_named(lowercase(name@)),
{
    let n = to_lowercase(name.as_str());
    if same_text(&n, "repo") {
        SortField::Repo
    } else if same_text(&n, "status") {
        SortField::Status
    } else if same_text(&n, "catalog-owner") {
        SortField::CatalogOwner
    } else if same_text(&n, "codeowners-teams") {
        SortField::CodeownersTeams
    } else if same_text(&n, "last-push") {
        SortField::LastPush
    } else if same_text(&n, "admin-teams") {
        SortField::AdminTeams
    } else if same_text(&n, "notes") {
        SortField::Notes
    } else {
        SortField::Unknown
    }
}

/// The fields `--sort` asks for.
fn fields_for(sort_columns: &[String]) -> (v: Vec<SortField>)
    ensures
        v@ == sort_fields(views(sort_columns@)),
{
    let mut v: Vec<SortField> = Vec::new();
    if sort_columns.len() == 0 {
        v.push(SortField::Repo);
        assert(v@ =~= sort_fields(views(sort_columns@)));
        return v;
    }
    let mut i: usize = 0;
    while i < sort_columns.len()
        invariant
            i <= sort_columns@.len(),
            v@.len() == i,
            forall|k: int| 0 <= k < i ==> v@[k] == field_named(lowercase(#[trigger] sort_columns@[k]@)),
        decreases sort_columns.len() - i,
    {
        v.push(field_for(&sort_columns[i]));
        i = i + 1;
    }
    assert(v@ =~= sort_fields(views(sort_columns@)));
    v
}

/// The key field `f` gives `repo`.
fn key_for(f: SortField, repo: &RepoOwnership) -> (k: SortKey)
    ensures
        key_fits(k, f, *repo),
{
    match f {
        SortField::Repo => SortKey::Text(to_lowercase(repo.repo_name.as_str())),
        SortField::Status => SortKey::Text(repo.alignment.label()),
        SortField::CatalogOwner => match &repo.catalog_owner {
            Some(o) => SortKey::Text(to_lowercase(o.as_str())),
            None => {
                let e = String::new();
                SortKey::Text(to_lowercase(e.as_str()))
            },
        },
        SortField::CodeownersTeams => {
            let j = join_strings(repo.codeowners_teams.as_slice(), ", ");
            SortKey::Text(to_lowercase(j.as_str()))
        },
        SortField::LastPush => SortKey::Time(repo.pushed_at),
        SortField::AdminTeams => {
            let j = join_strings(repo.admin_teams.as_slice(), ", ");
            SortKey::Text(to_lowercase(j.as_str()))
        },
        SortField::Notes => SortKey::Text(join_strings(repo.notes.as_slice(), "; ")),
        SortField::Unknown => SortKey::Nothing,
    }
}

/// The keys `fields` give `repo`.
fn keys_for(fields: &Vec<SortField>, repo: &RepoOwnership) -> (v: Vec<SortKey>)
    ensures
        keys_fit(v@, fields@, *repo),
{
    let mut v: Vec<SortKey> = Vec::new();
    let mut k: usize = 0;
    while k < fields.len()
        invariant
            k <= fields@.len(),
            v@.len() == k,
            forall|j: int| 0 <= j < k ==> key_fits(#[trigger] v@[j], fields@[j], *repo),
        decreases fields.len() - k,
    {
        v.push(key_for(fields[k], repo));
        k = k + 1;
    }
    v
}

/// The order in which the table lists `repos`: by the `--sort` columns in
/// turn (the repo name when none is given), repos that tie keeping their order.
pub fn sort_repos(repos: &[RepoOwnership], sort_columns: &[String]) -> (order: Vec<usize>)
    ensures
        sorted_order(repos@, sort_fields(views(sort_columns@)), order@),
{
    let fields = fields_for(sort_columns);
    sort_by_fields(repos, &fields)
}

/// The order that sorts `repos` by `fields`, repos that tie keeping their order.
fn sort_by_fields(repos: &[RepoOwnership], fields: &Vec<SortField>) -> (order: Vec<usize>)
    ensures
        sorted_order(repos@, fields@, order@),
{
    let ghost fs = fields@;
    let mut keys: Vec<Vec<SortKey>> = Vec::new();
    let mut r: usize = 0;
    while r < repos.len()
        invariant
            r <= repos@.len(),
            fs == fields@,
            keys@.len() == r,
            forall|j: int| 0 <= j < r ==> keys_fit((#[trigger] keys@[j])@, fs, repos@[j]),
        decreases repos.len() - r,
    {
        keys.push(keys_for(fields, &repos[r]));
        r = r + 1;
    }
    let ghost ks = keys@.map_values(|v: Vec<SortKey>| v@);
    assert forall|a: int, b: int| 0 <= a < ks.len() && 0 <= b < ks.len() implies (#[trigger] ks[a]).len()
        == (#[trigger] ks[b]).len() by {
        assert(keys_fit(keys@[a]@, fs, repos@[a]));
        assert(keys_fit(keys@[b]@, fs, repos@[b]));
    }
    assert(same_width(ks));
    let order = stable_order(&keys);
    proof {
        let o = order@;
        assert(stably_ordered(ks, o));
        assert forall|a: int, b: int| 0 <= a < repos@.len() && 0 <= b < repos@.len() implies keys_before(
            ks[a],
            ks[b],
        ) == repo_before(fs, repos@[a], repos@[b]) by {
            assert(keys_fit(keys@[a]@, fs, repos@[a]));
            assert(keys_fit(keys@[b]@, fs, repos@[b]));
            lemma_keys_decide(ks[a], ks[b], fs, repos@[a], repos@[b]);
        }
        assert forall|i: int, j: int| 0 <= i < j < o.len() implies !repo_before(
            fs,
            #[trigger] repos@[o[j] as int],
            #[trigger] repos@[o[i] as int],
        ) by {
            assert(!keys_before(ks[o[j] as int], ks[o[i] as int]));
        }
        assert forall|i: int, j: int|
            0 <= i < j < o.len() && !repo_before(
                fs,
                #[trigger] repos@[o[i] as int],
                #[trigger] repos@[o[j] as int],
            ) implies o[i] < o[j] by {
            assert(!keys_before(ks[o[i] as int], ks[o[j] as int]));
        }
    }
    order
}

/// The `--sort` columns a sort order shows its arrow on: the last push for
/// `stale` and `active`, the repo name for `name`.
pub open spec fn order_columns(sort: SortOrder) -> Seq<Seq<char>> {
    match sort {
        SortOrder::Stale => seq!["last-push"@],
        SortOrder::Active => seq!["last-push"@],
        SortOrder::Name => seq!["repo"@],
    }
}

/// The columns the org table marks as sorted for `sort`.
pub fn sort_columns_for(sort: SortOrder) -> (cols: Vec<String>)
    ensures
        views(cols@) == order_columns(sort),
{
    let mut cols: Vec<String> = Vec::new();
    match sort {
        SortOrder::Stale => cols.push("last-push".to_owned()),
        SortOrder::Active => cols.push("last-push".to_owned()),
        SortOrder::Name => cols.push("repo".to_owned()),
    }
    assert(views(cols@) =~= order_columns(sort));
    cols
}

/// The order the org table lists `repos` in for a sort order: `stale`
/// puts the longest-untouched repos first (no push first of all), `active`
/// is that order read backwards, and `name` sorts by repo name ignoring
/// case; repos that tie keep their order (reversed, for `active`).
pub fn org_table_order(repos: &[RepoOwnership], sort: SortOrder) -> (order: Vec<usize>)
    ensures
        match sort {
            SortOrder::Stale => sorted_order(repos@, seq![SortField::LastPush], order@),
            SortOrder::Name => sorted_order(repos@, seq![SortField::Repo], order@),
            SortOrder::Active => exists|o: Seq<usize>|
                #![trigger o.reverse()]
                sorted_order(repos@, seq![SortField::LastPush], o) && order@ == o.reverse(),
        },
{
    let mut fields: Vec<SortField> = Vec::new();
    match sort {
        SortOrder::Name => fields.push(SortField::Repo),
        _ => fields.push(SortField::LastPush),
    }
    let order = sort_by_fields(repos, &fields);
    match sort {
        SortOrder::Active => {
            let mut rev: Vec<usize> = Vec::new();
            let mut i: usize = order.len();
            while i > 0
                invariant
                    i <= order@.len(),
                    rev@ =~= order@.reverse().take((order@.len() - i) as int),
                decreases i,
            {
                i = i - 1;
                let ghost before = rev@;
                rev.push(order[i]);
                assert(rev@ =~= order@.reverse().take((order@.len() - i) as int)) by {
                    assert(order@.reverse()[(order@.len() - i - 1) as int] == order@[i as int]);
                }
            }
            assert(order@.reverse().take(order@.len() as int) =~= order@.reverse());
            assert(fields@ =~= seq![SortField::LastPush]);
            assert(sorted_order(repos@, seq![SortField::LastPush], order@));
            rev
        },
        _ => {
            assert(fields@ =~= seq![SortField::LastPush] || fields@ =~= seq![SortField::Repo]);
            order
        },
    }
}

// --- Cells and layout ---

/// What `repo` shows in column `col`.
fn cell(repo: &RepoOwnership, col: Column) -> (s: String)
    ensures
        s@ == cell_text(*repo, col),
{
    match col {
        Column::Repo => repo.repo_name.clone(),
        Column::Status => repo.alignment.label(),
        Column::CatalogOwner => match &repo.catalog_owner {
            Some(o) => o.clone(),
            None => "-".to_owned(),
        },
        Column::CodeownersTeams => {
            if repo.codeowners_teams.len() == 0 {
                "-".to_owned()
            } else {
                join_strings(repo.codeowners_teams.as_slice(), ", ")
            }
        },
        Column::LastPush => match repo.pushed_at {
            Some(t) => match format_utc(t, "%Y-%m-%d") {
                Some(d) => d,
                None => "-".to_owned(),
            },
            None => "-".to_owned(),
        },
        Column::AdminTeams => {
            if repo.admin_teams.len() == 0 {
                "-".to_owned()
            } else {
                join_strings(repo.admin_teams.as_slice(), ", ")
            }
        },
        Column::Notes => join_strings(repo.notes.as_slice(), "; "),
    }
}

/// The cells of `repo`'s row.
fn row_values(repo: &RepoOwnership, columns: &[Column]) -> (v: Vec<String>)
    ensures
        views(v@) == row_cells(*repo, columns@),
{
    let mut v: Vec<String> = Vec::new();
    let mut i: usize = 0;
    while i < columns.len()
        invariant
            i <= columns@.len(),
            v@.len() == i,
            forall|k: int| 0 <= k < i ==> (#[trigger] v@[k])@ == cell_text(*repo, columns@[k]),
        decreases columns.len() - i,
    {
        v.push(cell(repo, columns[i]));
        i = i + 1;
    }
    assert(views(v@) =~= row_cells(*repo, columns@));
    v
}

/// `s` cut to at most `max` columns, ending in `…` when it was cut.
fn truncate(s: &str, max: usize) -> (r: String)
    ensures
        r@ == truncated(s@, max as nat),
{
    let w = text_width(s);
    if w <= max {
        return s.to_owned();
    }
    if max == 0 {
        return String::new();
    }
    let v = chars_of(s);
    let target = max - 1;
    let mut used: usize = 0;
    let mut i: usize = 0;
    assert(v@.skip(0) =~= v@);
    while i < v.len()
        invariant_except_break
            i <= v@.len(),
            used <= target,
            v@ == s@,
            fitting_prefix(v@, target as nat) == i + fitting_prefix(
                v@.skip(i as int),
                (target - used) as nat,
            ),
        ensures
            i <= v@.len(),
            fitting_prefix(v@, target as nat) == i,
        decreases v.len() - i,
    {
        let c = v[i];
        assert(v@.skip(i as int)[0] == c);
        assert(v@.skip(i as int).drop_first() =~= v@.skip(i + 1));
        let cw: usize = match char_width(c) {
            Some(x) => x,
            None => 0,
        };
        if cw > target - used {
            break;
        }
        used = used + cw;
        i = i + 1;
    }
    let mut r = string_from_range(&v, 0, i);
    push_char(&mut r, '\u{2026}');
    assert(v@.subrange(0, i as int) =~= s@.take(i as int));
    r
}

/// `s` padded with spaces on the right to `width` columns.
fn pad_right(s: &str, width: usize) -> (r: String)
    ensures
        r@ == padded(s@, width as nat),
{
    let w = text_width(s);
    if w >= width {
        return s.to_owned();
    }
    let mut r = s.to_owned();
    let mut k: usize = 0;
    while k < width - w
        invariant
            w < width,
            w == str_columns(s@),
            k <= width - w,
            r@ == s@ + Seq::new(k as nat, |i: int| ' '),
        decreases width - w - k,
    {
        push_char(&mut r, ' ');
        k = k + 1;
        assert(r@ =~= s@ + Seq::new(k as nat, |i: int| ' '));
    }
    r
}

/// The width of column `i` over `rows`.
fn width_of_column(
    col: Column,
    primary: &Option<String>,
    rows: &Vec<Vec<String>>,
    i: usize,
    ghost_rows: Ghost<Seq<Seq<Seq<char>>>>,
) -> (w: usize)
    requires
        ghost_rows@ == rows@.map_values(|r: Vec<String>| views(r@)),
        forall|j: int| 0 <= j < rows@.len() ==> i < (#[trigger] rows@[j])@.len(),
    ensures
        w == column_width(col, string_opt(*primary), ghost_rows@, i as int),
{
    let mut w = text_width(col.header());
    let mut j: usize = 0;
    while j < rows.len()
        invariant
            j <= rows@.len(),
            ghost_rows@ == rows@.map_values(|r: Vec<String>| views(r@)),
            forall|q: int| 0 <= q < rows@.len() ==> i < (#[trigger] rows@[q])@.len(),
            w as nat == max_nat(
                str_columns(column_header(col)) as nat,
                widest_cell(ghost_rows@.take(j as int), i as int),
            ),
        decreases rows.len() - j,
    {
        let x = text_width(rows[j][i].as_str());
        assert(ghost_rows@.take(j + 1).drop_last() =~= ghost_rows@.take(j as int));
        assert(ghost_rows@.take(j + 1).last()[i as int] == rows@[j as int]@[i as int]@);
        if x > w {
            w = x;
        }
        j = j + 1;
    }
    assert(ghost_rows@.take(rows@.len() as int) =~= ghost_rows@);
    if w > MAX_COL_WIDTH {
        w = MAX_COL_WIDTH;
    }
    let shown = header_shown(col, primary);
    let hw = text_width(shown.as_str());
    if hw > w {
        w = hw;
    }
    if w > MAX_COL_WIDTH {
        w = MAX_COL_WIDTH;
    }
    w
}

/// A heading as shown, with `↑` when `primary` names its column.
fn header_shown(col: Column, primary: &Option<String>) -> (h: String)
    ensures
        h@ == shown_header(col, string_opt(*primary)),
{
    let mut h = col.header().to_owned();
    match primary {
        Some(p) => {
            if same_text(p, col.sort_key()) {
                push_char(&mut h, '\u{2191}');
            }
        },
        None => {},
    }
    h
}

/// The line of headings, each padded to its column's width.
fn render_header_line(
    columns: &Vec<Column>,
    primary: &Option<String>,
    widths: &Vec<usize>,
    ws: Ghost<Seq<nat>>,
) -> (line: String)
    requires
        widths@.len() == columns@.len(),
        ws@.len() == columns@.len(),
        forall|i: int| 0 <= i < widths@.len() ==> (#[trigger] widths@[i]) as nat == ws@[i],
    ensures
        line@ == header_line(columns@, string_opt(*primary), ws@),
{
    let mut parts: Vec<String> = Vec::new();
    let mut i: usize = 0;
    while i < columns.len()
        invariant
            i <= columns@.len(),
            widths@.len() == columns@.len(),
            ws@.len() == columns@.len(),
            forall|k: int| 0 <= k < widths@.len() ==> (#[trigger] widths@[k]) as nat == ws@[k],
            parts@.len() == i,
            forall|k: int|
                0 <= k < i ==> (#[trigger] parts@[k])@ == padded(
                    shown_header(columns@[k], string_opt(*primary)),
                    ws@[k],
                ),
        decreases columns.len() - i,
    {
        let h = header_shown(columns[i], primary);
        parts.push(pad_right(h.as_str(), widths[i]));
        i = i + 1;
    }
    assert(views(parts@) =~= Seq::new(
        columns@.len(),
        |k: int| padded(shown_header(columns@[k], string_opt(*primary)), ws@[k]),
    ));
    join_strings(parts.as_slice(), "  ")
}

/// A row's line: its cells cut and padded to the column widths.
fn render_data_line(cells: &Vec<String>, widths: &Vec<usize>, ws: Ghost<Seq<nat>>) -> (line: String)
    requires
        widths@.len() == cells@.len(),
        ws@.len() == cells@.len(),
        forall|i: int| 0 <= i < widths@.len() ==> (#[trigger] widths@[i]) as nat == ws@[i],
    ensures
        line@ == data_line(views(cells@), ws@),
{
    let mut parts: Vec<String> = Vec::new();
    let mut i: usize = 0;
    while i < cells.len()
        invariant
            i <= cells@.len(),
            widths@.len() == cells@.len(),
            ws@.len() == cells@.len(),
            forall|k: int| 0 <= k < widths@.len() ==> (#[trigger] widths@[k]) as nat == ws@[k],
            parts@.len() == i,
            forall|k: int|
                0 <= k < i ==> (#[trigger] parts@[k])@ == padded(
                    truncated(cells@[k]@, ws@[k]),
                    ws@[k],
                ),
        decreases cells.len() - i,
    {
        let t = truncate(cells[i].as_str(), widths[i]);
        parts.push(pad_right(t.as_str(), widths[i]));
        i = i + 1;
    }
    assert(views(parts@) =~= Seq::new(
        views(cells@).len(),
        |k: int| padded(truncated(views(cells@)[k], ws@[k]), ws@[k]),
    ));
    join_strings(parts.as_slice(), "  ")
}

/// The table for the repos `order` lists, in that order: a title line
/// `repos(<team filter or all>)[<count>]`, the headings, one line per repo
/// with cells cut to `MAX_COL_WIDTH` columns, and `footer` when it is not empty.
pub fn layout_table(
    repos: &[RepoOwnership],
    order: &Vec<usize>,
    opts: &TableOptions,
    footer: &str,
) -> (out: String)
    requires
        forall|i: int| 0 <= i < order@.len() ==> (#[trigger] order@[i]) < repos@.len(),
    ensures
        out@ == table_text(
            reordered(repos@, order@),
            opts.wide,
            views(opts.sort_columns@),
            string_opt(opts.team_filter),
            footer@,
        ),
{
    let ghost sorted = reordered(repos@, order@);
    let columns = if opts.wide {
        wide_columns()
    } else {
        default_columns()
    };
    let ghost cols = columns@;
    assert(cols == table_columns(opts.wide));
    let primary: Option<String> = if opts.sort_columns.len() > 0 {
        Some(to_lowercase(opts.sort_columns[0].as_str()))
    } else {
        None
    };
    let ghost prim = string_opt(primary);
    assert(prim == primary_sort(views(opts.sort_columns@)));
    // The rows.
    let mut rows: Vec<Vec<String>> = Vec::new();
    let mut j: usize = 0;
    while j < order.len()
        invariant
            j <= order@.len(),
            forall|i: int| 0 <= i < order@.len() ==> (#[trigger] order@[i]) < repos@.len(),
            sorted == reordered(repos@, order@),
            cols == columns@,
            rows@.len() == j,
            forall|k: int| 0 <= k < j ==> views((#[trigger] rows@[k])@) == row_cells(sorted[k], cols),
        decreases order.len() - j,
    {
        rows.push(row_values(&repos[order[j]], columns.as_slice()));
        j = j + 1;
    }
    let ghost grows = rows@.map_values(|r: Vec<String>| views(r@));
    assert(grows =~= table_rows(sorted, cols));
    // The widths.
    let ghost ws = table_widths(cols, prim, grows);
    let mut widths: Vec<usize> = Vec::new();
    let mut i: usize = 0;
    while i < columns.len()
        invariant
            i <= cols.len(),
            cols == columns@,
            grows == rows@.map_values(|r: Vec<String>| views(r@)),
            forall|k: int| 0 <= k < rows@.len() ==> views((#[trigger] rows@[k])@) == row_cells(sorted[k], cols),
            ws == table_widths(cols, prim, grows),
            prim == string_opt(primary),
            widths@.len() == i,
            forall|k: int| 0 <= k < i ==> (#[trigger] widths@[k]) as nat == ws[k],
        decreases columns.len() - i,
    {
        assert forall|q: int| 0 <= q < rows@.len() implies i < (#[trigger] rows@[q])@.len() by {
            assert(views(rows@[q]@).len() == row_cells(sorted[q], cols).len());
        }
        let w = width_of_column(columns[i], &primary, &rows, i, Ghost(grows));
        widths.push(w);
        i = i + 1;
    }
    // The text.
    let mut out = String::new();
    out.append("repos(");
    match &opts.team_filter {
        Some(t) => out.append(t.as_str()),
        None => out.append("all"),
    }
    out.append(")[");
    push_decimal(&mut out, order.len() as u64);
    out.append("]");
    out.append("\n");
    let ghost title = title_line(string_opt(opts.team_filter), sorted.len());
    assert(out@ =~= title + "\n"@);
    let hl = render_header_line(&columns, &primary, &widths, Ghost(ws));
    out.append(hl.as_str());
    out.append("\n");
    let ghost head = title + "\n"@ + header_line(cols, prim, ws) + "\n"@;
    assert(out@ =~= head);
    let mut r: usize = 0;
    assert(grows.take(0) =~= seq![]);
    while r < rows.len()
        invariant
            r <= rows@.len(),
            cols == columns@,
            grows == rows@.map_values(|x: Vec<String>| views(x@)),
            forall|k: int| 0 <= k < rows@.len() ==> views((#[trigger] rows@[k])@) == row_cells(sorted[k], cols),
            widths@.len() == cols.len(),
            ws.len() == cols.len(),
            forall|k: int| 0 <= k < widths@.len() ==> (#[trigger] widths@[k]) as nat == ws[k],
            out@ == head + data_lines(grows.take(r as int), ws),
        decreases rows.len() - r,
    {
        assert(views(rows@[r as int]@).len() == cols.len());
        let line = render_data_line(&rows[r], &widths, Ghost(ws));
        out.append(line.as_str());
        out.append("\n");
        assert(grows.take(r + 1).drop_last() =~= grows.take(r as int));
        assert(grows.take(r + 1).last() == views(rows@[r as int]@));
        r = r + 1;
    }
    assert(grows.take(rows@.len() as int) =~= grows);
    if !footer.is_empty() {
        out.append(footer);
        out.append("\n");
    }
    assert(out@ =~= table_text(
        sorted,
        opts.wide,
        views(opts.sort_columns@),
        string_opt(opts.team_filter),
        footer@,
    ));
    out
}

/// The org table for `repos`: sorted by `opts.sort_columns` (the repo name
/// when none is given), repos that tie keeping their order, then laid out
/// as `layout_table` does; `footer` (the status tally) ends it when it is
/// not empty.
pub fn render_table(repos: &[RepoOwnership], opts: &TableOptions, footer: &str) -> (out: String)
    ensures
        exists|order: Seq<usize>|
            #![trigger reordered(repos@, order)]
            sorted_order(repos@, sort_fields(views(opts.sort_columns@)), order) && out@ == table_text(
                reordered(repos@, order),
                opts.wide,
                views(opts.sort_columns@),
                string_opt(opts.team_filter),
                footer@,
            ),
{
    let order = sort_repos(repos, opts.sort_columns.as_slice());
    let out = layout_table(repos, &order, opts, footer);
    assert(sorted_order(repos@, sort_fields(views(opts.sort_columns@)), order@));
    out
}

/// `order` lists every repo once, their names in ascending order.
pub open spec fn names_ascending(repos: Seq<RepoOwnership>, order: Seq<usize>) -> bool {
    &&& order.len() == repos.len()
    &&& forall|i: int| 0 <= i < order.len() ==> (#[trigger] order[i]) < repos.len()
    &&& forall|i: int, j: int| 0 <= i < j < order.len() ==> order[i] != order[j]
    &&& forall|i: int, j: int|
        0 <= i < j < order.len() ==> !lex_lt(
            (#[trigger] repos[order[j] as int]).repo_name@,
            (#[trigger] repos[order[i] as int]).repo_name@,
        )
}

/// The repos' names, one per line.
pub open spec fn name_lines(repos: Seq<RepoOwnership>) -> Seq<char>
    decreases repos.len(),
{
    if repos.len() == 0 {
        seq![]
    } else {
        name_lines(repos.drop_last()) + repos.last().repo_name@ + "\n"@
    }
}

/// The repo names, one per line, in ascending order.
pub fn render_names(repos: &[RepoOwnership]) -> (out: String)
    ensures
        exists|order: Seq<usize>|
            #![trigger reordered(repos@, order)]
            names_ascending(repos@, order) && out@ == name_lines(reordered(repos@, order)),
{
    let mut keys: Vec<Vec<SortKey>> = Vec::new();
    let mut r: usize = 0;
    while r < repos.len()
        invariant
            r <= repos@.len(),
            keys@.len() == r,
            forall|j: int|
                0 <= j < r ==> (#[trigger] keys@[j])@ == seq![
                    SortKey::Text(repos@[j].repo_name),
                ],
        decreases repos.len() - r,
    {
        let mut k: Vec<SortKey> = Vec::new();
        k.push(SortKey::Text(repos[r].repo_name.clone()));
        keys.push(k);
        r = r + 1;
    }
    let ghost ks = keys@.map_values(|v: Vec<SortKey>| v@);
    assert forall|a: int, b: int| 0 <= a < ks.len() && 0 <= b < ks.len() implies (#[trigger] ks[a]).len()
        == (#[trigger] ks[b]).len() by {
    }
    let order = stable_order(&keys);
    let ghost o = order@;
    proof {
        assert forall|i: int, j: int| 0 <= i < j < o.len() implies !lex_lt(
            (#[trigger] repos@[o[j] as int]).repo_name@,
            (#[trigger] repos@[o[i] as int]).repo_name@,
        ) by {
            let x = ks[o[j] as int];
            let y = ks[o[i] as int];
            assert(!keys_before(x, y));
            assert(x.drop_first() =~= seq![]);
            assert(y.drop_first() =~= seq![]);
            if lex_lt(repos@[o[j] as int].repo_name@, repos@[o[i] as int].repo_name@) {
                assert(key_lt(x[0], y[0]));
            }
        }
    }
    let mut out = String::new();
    let mut i: usize = 0;
    let ghost sorted = reordered(repos@, o);
    assert(sorted.take(0) =~= seq![]);
    while i < order.len()
        invariant
            i <= o.len(),
            o == order@,
            sorted == reordered(repos@, o),
            forall|q: int| 0 <= q < o.len() ==> (#[trigger] o[q]) < repos@.len(),
            out@ == name_lines(sorted.take(i as int)),
        decreases order.len() - i,
    {
        out.append(repos[order[i]].repo_name.as_str());
        out.append("\n");
        assert(sorted.take(i + 1).drop_last() =~= sorted.take(i as int));
        i = i + 1;
    }
    assert(sorted.take(o.len() as int) =~= sorted);
    assert(names_ascending(repos@, o));
    out
}

/// Two sorted orders of the same repos agree below `i`.
proof fn lemma_sorted_orders_agree(
    repos: Seq<RepoOwnership>,
    fields: Seq<SortField>,
    o1: Seq<usize>,
    o2: Seq<usize>,
    i: int,
)
    requires
        sorted_order(repos, fields, o1),
        sorted_order(repos, fields, o2),
        0 <= i <= repos.len(),
    ensures
        forall|k: int| 0 <= k < i ==> o1[k] == o2[k],
    decreases i,
{
    if i > 0 {
        let p = i - 1;
        lemma_sorted_orders_agree(repos, fields, o1, o2, p);
        let a = o1[p];
        let b = o2[p];
        if a != b {
            let n = repos.len();
            assert(is_permutation(o1, n));
            assert(is_permutation(o2, n));
            lemma_permutation_covers(o1, n, b as int);
            lemma_permutation_covers(o2, n, a as int);
            let k = choose|k: int| 0 <= k < n && o1[k] == b;
            let j = choose|j: int| 0 <= j < n && o2[j] == a;
            if k < p {
                assert(o2[k] == b);
                assert(o2[k] != o2[p]);
            }
            if j < p {
                assert(o1[j] == a);
                assert(o1[j] != o1[p]);
            }
            assert(k > p && j > p);
            assert(!repo_before(fields, repos[o1[k] as int], repos[o1[p] as int]));
            assert(!repo_before(fields, repos[o2[j] as int], repos[o2[p] as int]));
            assert(a < b);
            assert(b < a);
        }
    }
}

/// The table's order is determined: two orders that both sort the repos by
/// `fields`, keeping ties in their given order, are the same order; so
/// `render_table` has one possible output for given repos and options.
pub proof fn law_table_order_is_unique(
    repos: Seq<RepoOwnership>,
    fields: Seq<SortField>,
    o1: Seq<usize>,
    o2: Seq<usize>,
)
    requires
        sorted_order(repos, fields, o1),
        sorted_order(repos, fields, o2),
    ensures
        o1 == o2,
{
    lemma_sorted_orders_agree(repos, fields, o1, o2, repos.len() as int);
    assert(o1 =~= o2);
}

} // verus!
