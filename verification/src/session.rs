//! Going through the proposed messages: the user accepts one, edits it,
//! quits, or asks for another. Another request is made only when every
//! candidate so far has been shown.
use vstd::prelude::*;

use crate::text::{copy_string, string_views};
use crate::types::ActionType;

verus! {

/// The candidates received so far and the one on screen.
pub struct CandidateBrowser {
    candidates: Vec<String>,
    index: usize,
}

/// What follows an action.
#[derive(Debug, Clone)]
pub enum Decision {
    /// Commit with this message.
    Commit(String),
    /// Open this message in the editor, and commit what comes back.
    Edit(String),
    /// Stop without committing.
    Abort,
    /// Show the next candidate, which is now the current one.
    ShowNext,
    /// Every candidate has been shown: request more, excluding all of them,
    /// and pass them to `add_candidates`.
    NeedMore,
}

/// The candidate shown after asking for another one while candidate `index`
/// of `count` is on screen: the next one, or `None` when every candidate has
/// been shown and more must be requested.
pub open spec fn next_candidate(index: nat, count: nat) -> Option<nat> {
    if index + 1 < count {
        Some(index + 1)
    } else {
        None
    }
}

/// Where `k` requests for another suggestion lead from the first of `count`
/// candidates: the candidate on screen, or `None` once more were requested.
pub open spec fn after_regenerations(count: nat, k: nat) -> Option<nat>
    decreases k,
{
    if k == 0 {
        Some(0)
    } else {
        match after_regenerations(count, (k - 1) as nat) {
            Some(i) => next_candidate(i, count),
            None => None,
        }
    }
}

/// "Try another suggestion" goes through every candidate of a request, in
/// order, before it asks for more: after `k` requests, with `k` less than
/// the number of candidates, candidate `k` is on screen, and the request
/// after the last candidate is the first that asks for more.
pub proof fn regenerate_cycles_before_requesting_more(count: nat, k: nat)
    requires
        count > 0,
    ensures
        k < count ==> after_regenerations(count, k) == Some(k),
        k == count ==> after_regenerations(count, k) is None,
    decreases k,
{
    if k > 0 {
        regenerate_cycles_before_requesting_more(count, (k - 1) as nat);
    }
}

impl CandidateBrowser {
    pub closed spec fn spec_candidates(&self) -> Seq<Seq<char>> {
        string_views(self.candidates@)
    }

    pub closed spec fn spec_index(&self) -> nat {
        self.index as nat
    }

    /// The candidate on screen is one of the candidates.
    pub closed spec fn wf(&self) -> bool {
        self.index < self.candidates@.len()
    }

    /// Starts at the first of `first`, which a successful generation never
    /// leaves empty.
    pub fn new(first: Vec<String>) -> (b: Self)
        requires
            first@.len() > 0,
        ensures
            b.wf(),
            b.spec_candidates() == string_views(first@),
            b.spec_index() == 0,
    {
        CandidateBrowser { candidates: first, index: 0 }
    }

    /// The candidate on screen.
    pub fn current(&self) -> (s: &String)
        requires
            self.wf(),
        ensures
            s@ == self.spec_candidates()[self.spec_index() as int],
    {
        &self.candidates[self.index]
    }

    /// All candidates so far, the ones to exclude from a new request.
    pub fn candidates(&self) -> (v: &Vec<String>)
        ensures
            string_views(v@) == self.spec_candidates(),
    {
        &self.candidates
    }

    /// What the user's action leads to. Accepting or editing hands out the
    /// current candidate; quitting aborts; asking for another moves to the
    /// next candidate, and needs more only after the last one.
    pub fn on_action(&mut self, action: ActionType) -> (d: Decision)
        requires
            old(self).wf(),
        ensures
            final(self).wf(),
            final(self).spec_candidates() == old(self).spec_candidates(),
            ({
                let cur = old(self).spec_candidates()[old(self).spec_index() as int];
                match action {
                    ActionType::Accept => d matches Decision::Commit(m) && m@ == cur
                        && final(self).spec_index() == old(self).spec_index(),
                    ActionType::Edit => d matches Decision::Edit(m) && m@ == cur
                        && final(self).spec_index() == old(self).spec_index(),
                    ActionType::Quit => d matches Decision::Abort && final(self).spec_index()
                        == old(self).spec_index(),
                    ActionType::Regenerate => match next_candidate(
                        old(self).spec_index(),
                        old(self).spec_candidates().len(),
                    ) {
                        Some(i) => d matches Decision::ShowNext && final(self).spec_index() == i,
                        None => d matches Decision::NeedMore && final(self).spec_index()
                            == old(self).spec_index(),
                    },
                }
            }),
    {
        match action {
            ActionType::Accept => Decision::Commit(copy_string(&self.candidates[self.index])),
            ActionType::Edit => Decision::Edit(copy_string(&self.candidates[self.index])),
            ActionType::Quit => Decision::Abort,
            ActionType::Regenerate => {
                if self.index == self.candidates.len() - 1 {
                    Decision::NeedMore
                } else {
                    self.index = self.index + 1;
                    Decision::ShowNext
                }
            },
        }
    }

    /// Adds the candidates of a new request after the old ones and shows the
    /// first new one.
    pub fn add_candidates(&mut self, more: Vec<String>)
        requires
            old(self).wf(),
            more@.len() > 0,
        ensures
            final(self).wf(),
            final(self).spec_candidates() == old(self).spec_candidates() + string_views(more@),
            final(self).spec_index() == old(self).spec_candidates().len(),
    {
        let ghost before = self.candidates@;
        let ghost added = more@;
        let start = self.candidates.len();
        let mut more = more;
        self.candidates.append(&mut more);
        self.index = start;
        assert(string_views(self.candidates@) =~= string_views(before) + string_views(added));
    }
}

} // verus!
