//! What the ownership heuristic suggests.
use vstd::prelude::*;

use crate::text::views;

verus! {

/// A team ranked by its members' recent activity on a repo.
#[derive(Debug, Clone)]
pub struct TeamSuggestion {
    pub team: String,
    pub commits: usize,
    pub reviews: usize,
    pub members: Vec<String>,
}

/// The ranked teams, the contributors that belong to no team, and the window used.
#[derive(Debug, Clone)]
pub struct SuggestionResult {
    pub suggestions: Vec<TeamSuggestion>,
    pub unresolved: Vec<String>,
    pub lookback_days: u64,
}

/// A suggestion as plain values: team, commits, reviews, active members.
pub type SuggestionView = (Seq<char>, nat, nat, Seq<Seq<char>>);

impl View for TeamSuggestion {
    type V = SuggestionView;

    open spec fn view(&self) -> SuggestionView {
        (self.team@, self.commits as nat, self.reviews as nat, views(self.members@))
    }
}

} // verus!
