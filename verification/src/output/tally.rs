//! The tally line under the org table: `3 aligned (60%) · 2 stale (40%)`.
use vstd::prelude::*;

use crate::reconcile::types::{status_label, AlignmentStatus, AuditSummary};
use crate::text::{decimal, join, join_strings, push_decimal, views};

verus! {

/// The statuses in the order the tally lists them.
pub open spec fn tally_order() -> Seq<AlignmentStatus> {
    seq![
        AlignmentStatus::Aligned,
        AlignmentStatus::Mismatched,
        AlignmentStatus::CatalogOnly,
        AlignmentStatus::CodeownersOnly,
        AlignmentStatus::AdminOnly,
        AlignmentStatus::Stale,
        AlignmentStatus::Missing,
    ]
}

/// One status's entry: its count, name and share.
pub open spec fn tally_entry(count: nat, st: AlignmentStatus, percent: nat) -> Seq<char> {
    decimal(count) + " "@ + status_label(st) + " ("@ + decimal(percent) + "%)"@
}

/// The entries of the first `k` statuses that some repo has.
pub open spec fn tally_entries(s: AuditSummary, percents: Seq<usize>, k: int) -> Seq<Seq<char>>
    decreases k,
{
    if k <= 0 {
        seq![]
    } else {
        let prev = tally_entries(s, percents, k - 1);
        let st = tally_order()[k - 1];
        if s.count_of(st) > 0 {
            prev.push(tally_entry(s.count_of(st), st, percents[k - 1] as nat))
        } else {
            prev
        }
    }
}

/// The tally: the entries of the statuses some repo has, in order, joined
/// by ` · `; empty when there is no repo.
pub open spec fn tally_text(s: AuditSummary, percents: Seq<usize>) -> Seq<char> {
    if s.total == 0 {
        seq![]
    } else {
        join(tally_entries(s, percents, 7), " \u{b7} "@)
    }
}

/// The tally line for `summary`, with `percents` the share of each status
/// (aligned, mismatched, catalog-only, codeowners-only, admin-only, stale,
/// missing) in whole percent.
pub fn tally_footer(summary: &AuditSummary, percents: &[usize]) -> (line: String)
    requires
        percents@.len() == 7,
    ensures
        line@ == tally_text(*summary, percents@),
{
    if summary.total == 0 {
        return String::new();
    }
    let mut statuses: Vec<AlignmentStatus> = Vec::new();
    statuses.push(AlignmentStatus::Aligned);
    statuses.push(AlignmentStatus::Mismatched);
    statuses.push(AlignmentStatus::CatalogOnly);
    statuses.push(AlignmentStatus::CodeownersOnly);
    statuses.push(AlignmentStatus::AdminOnly);
    statuses.push(AlignmentStatus::Stale);
    statuses.push(AlignmentStatus::Missing);
    assert(statuses@ =~= tally_order());
    let mut parts: Vec<String> = Vec::new();
    let mut k: usize = 0;
    while k < 7
        invariant
            k <= 7,
            statuses@ == tally_order(),
            percents@.len() == 7,
            views(parts@) == tally_entries(*summary, percents@, k as int),
        decreases 7 - k,
    {
        let st = statuses[k];
        let count = match st {
            AlignmentStatus::Aligned => summary.aligned,
            AlignmentStatus::Mismatched => summary.mismatched,
            AlignmentStatus::CatalogOnly => summary.catalog_only,
            AlignmentStatus::CodeownersOnly => summary.codeowners_only,
            AlignmentStatus::AdminOnly => summary.admin_only,
            AlignmentStatus::Stale => summary.stale,
            AlignmentStatus::Missing => summary.missing,
        };
        assert(count as nat == summary.count_of(st));
        if count > 0 {
            let mut entry = String::new();
            push_decimal(&mut entry, count as u64);
            entry.append(" ");
            let label = st.label();
            entry.append(label.as_str());
            entry.append(" (");
            push_decimal(&mut entry, percents[k] as u64);
            entry.append("%)");
            let ghost before = views(parts@);
            parts.push(entry);
            assert(views(parts@) =~= before.push(
                tally_entry(summary.count_of(st), st, percents@[k as int] as nat),
            ));
        }
        k = k + 1;
    }
    join_strings(parts.as_slice(), " \u{b7} ")
}

} // verus!
