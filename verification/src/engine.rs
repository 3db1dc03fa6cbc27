//! Per-generation decision rules of the search engine: reducing the
//! parallel chains' results to a single best candidate, strict-improvement
//! acceptance inside a chain, and the commit rule that appends to the
//! command log only when the global best score strictly improves.
//!
//! Scores are the fixed-point values of the difference metric: plain
//! integers, lower is better.

use vstd::prelude::*;

verus! {

use crate::draw_command::{DrawCommand, Rgba};

/// The engine's cross-generation state: the background color, the ordered
/// log of committed commands, and the running global best score.
pub struct SearchState {
    pub bg: Rgba,
    pub commands: Vec<DrawCommand>,
    pub best_score: i64,
}

impl SearchState {
    /// The state before the first generation: an empty command log over the
    /// chosen background, whose rendering scored `initial_score`.
    pub fn init(bg: Rgba, initial_score: i64) -> (s: SearchState)
        ensures
            s.bg == bg,
            s.commands@.len() == 0,
            s.best_score == initial_score,
    {
        SearchState { bg, commands: Vec::new(), best_score: initial_score }
    }

    /// The commit rule of a generation: exactly when `score` strictly
    /// improves on the running best, append the command to the log and
    /// lower the best score to it; otherwise change nothing. Either way the
    /// running best score never increases.
    pub fn commit_if_better(&mut self, score: i64, cmd: DrawCommand) -> (committed: bool)
        ensures
            committed <==> score < old(self).best_score,
            final(self).bg == old(self).bg,
            committed ==> final(self).best_score == score && final(self).commands@ == old(
                self,
            ).commands@.push(cmd),
            !committed ==> *final(self) == *old(self),
            final(self).best_score <= old(self).best_score,
            old(self).commands@.len() <= final(self).commands@.len() <= old(
                self,
            ).commands@.len() + 1,
    {
        if score < self.best_score {
            self.best_score = score;
            self.commands.push(cmd);
            true
        } else {
            false
        }
    }

    /// One generation's reduction and commit: pick the chains' first-best
    /// candidate and commit it exactly when it strictly improves the
    /// running best. The returned command, present exactly on a commit, is
    /// the one the caller must rasterize onto the shared canvas.
    pub fn run_generation(&mut self, results: &Vec<(i64, DrawCommand)>) -> (r: Option<DrawCommand>)
        requires
            results.len() >= 1,
        ensures
            final(self).bg == old(self).bg,
            final(self).best_score <= old(self).best_score,
            r is Some <==> exists|i: int|
                0 <= i < results@.len() && #[trigger] results@[i].0 < old(self).best_score,
            match r {
                Some(cmd) => {
                    &&& exists|i: int|
                        0 <= i < results@.len() && #[trigger] results@[i] == (
                        final(self).best_score,
                        cmd,
                        )
                    &&& forall|j: int|
                        0 <= j < results@.len() ==> final(self).best_score
                            <= #[trigger] results@[j].0
                    &&& final(self).commands@ == old(self).commands@.push(cmd)
                },
                None => *final(self) == *old(self),
            },
    {
        let (best_score, best_cmd) = select_best(results);
        let committed = self.commit_if_better(best_score, best_cmd);
        if committed {
            Some(best_cmd)
        } else {
            None
        }
    }
}

/// Reduce the chains' results to the single best candidate by strict
/// comparison, the earliest result winning ties: the returned pair is the
/// first one attaining the minimum score.
pub fn select_best(results: &Vec<(i64, DrawCommand)>) -> (best: (i64, DrawCommand))
    requires
        results.len() >= 1,
    ensures
        forall|j: int| 0 <= j < results@.len() ==> best.0 <= #[trigger] results@[j].0,
        exists|i: int|
            0 <= i < results@.len() && best == results@[i] && (forall|j: int|
                0 <= j < i ==> best.0 < #[trigger] results@[j].0),
{
    let mut best = results[0];
    let ghost mut bi: int = 0;
    let mut i: usize = 1;
    while i < results.len()
        invariant
            1 <= i <= results@.len(),
            0 <= bi < i,
            best == results@[bi],
            forall|j: int| 0 <= j < bi ==> best.0 < #[trigger] results@[j].0,
            forall|j: int| 0 <= j < i ==> best.0 <= #[trigger] results@[j].0,
        decreases results@.len() - i,
    {
        let cand = results[i];
        if cand.0 < best.0 {
            best = cand;
            proof {
                bi = i as int;
            }
        }
        i = i + 1;
    }
    proof {
        assert(0 <= bi < results@.len() && best == results@[bi] && (forall|j: int|
            0 <= j < bi ==> best.0 < #[trigger] results@[j].0));
    }
    best
}

/// Strict-improvement acceptance inside a hill-climbing chain: keep the
/// candidate exactly when its score strictly improves on the chain's best.
pub fn accept_candidate(
    best_score: i64,
    best_cmd: DrawCommand,
    score: i64,
    cmd: DrawCommand,
) -> (r: (i64, DrawCommand))
    ensures
        r.0 <= best_score,
        score < best_score ==> r == (score, cmd),
        score >= best_score ==> r == (best_score, best_cmd),
{
    if score < best_score {
        (score, cmd)
    } else {
        (best_score, best_cmd)
    }
}

} // verus!
