//! The decision session: an explicit state machine over the immutable,
//! ordered pair list. The driver performs the I/O the machine asks for —
//! analyzing a pair in the background, committing a chosen file — and
//! feeds the results back as events; the machine decides everything else:
//! when a pair is presented, how a decision moves the session forward,
//! when the donor slot is raised and cleared, and what the counters are.
//!
//! A pair whose analysis or commit fails is counted in `errored` and the
//! session moves on: the failure is reported by the driver that observed
//! it, and a pair never stalls the session.

use crate::commit::CommitError;
use crate::file_manager::MatchedPair;
use crate::image_analyzer::ImageAnalysis;
use vstd::prelude::*;

verus! {

/// The two sides of a presented pair.
pub enum Side {
    /// The first tree's file.
    A,
    /// The second tree's file.
    B,
}

/// An operator decision on the presented pair.
pub enum Decision {
    /// Commit the first tree's file.
    ChooseA,
    /// Commit the second tree's file.
    ChooseB,
    /// Keep neither file and move on.
    Skip,
    /// Mark the metadata-richer side as donor for the next commit.
    RequestMetadataTransfer,
    /// End the session now.
    Cancel,
}

/// What a metadata-transfer request reported.
pub enum TransferOutcome {
    /// The first side is the donor.
    DonorA,
    /// The second side is the donor.
    DonorB,
    /// Equal counts on both sides: no donor, any prior donor cleared.
    NoTransfer,
}

/// Work the session asks its driver to perform.
pub enum Action {
    /// Analyze both sides of the pair at `index` and deliver the results.
    Analyze {
        /// Which pair to analyze.
        index: usize,
    },
    /// Copy `source` into the output folder, merging the donor's
    /// metadata when one is named, and report the outcome. While the
    /// copy runs, the pair at `prefetch` may be analyzed in the
    /// background.
    Commit {
        /// The chosen file to copy.
        source: String,
        /// The file whose metadata is merged into the copy, if any.
        donor: Option<String>,
        /// The next pair, to analyze concurrently, if there is one.
        prefetch: Option<usize>,
    },
}

/// Where the session stands on the current pair.
pub enum Phase {
    /// Waiting for the analyses of the current pair.
    Preparing,
    /// Showing the analyses of the current pair.
    Presenting {
        /// The first tree's analysis.
        analysis1: ImageAnalysis,
        /// The second tree's analysis.
        analysis2: ImageAnalysis,
    },
    /// Waiting for the outcome of a commit of the chosen file.
    Committing {
        /// The file being committed.
        chosen: String,
    },
    /// Every pair handled, or the session cancelled.
    Done,
}

/// The next pair's analyses, finished ahead of time; consumed exactly
/// once, when the session advances to that pair.
pub struct PrefetchSlot {
    /// The pair the analyses belong to.
    pub index: usize,
    /// The first tree's analysis.
    pub analysis1: ImageAnalysis,
    /// The second tree's analysis.
    pub analysis2: ImageAnalysis,
}

/// The session state: the fixed pair list, the position, the counters,
/// the pending donor, the phase and the prefetch slot.
pub struct Session {
    /// The immutable ordered pair list, fixed at session start.
    pub pairs: Vec<MatchedPair>,
    /// How many pairs have been passed, one way or another.
    pub index: usize,
    /// How many commits succeeded.
    pub selected: usize,
    /// How many pairs were skipped.
    pub skipped: usize,
    /// How many pairs failed in analysis or commit and were passed over.
    pub errored: usize,
    /// The path whose metadata the next commit merges, if one is marked.
    pub donor: Option<String>,
    /// Where the session stands on the current pair.
    pub phase: Phase,
    /// The next pair's analyses, once ready.
    pub prefetch: Option<PrefetchSlot>,
}

/// What choosing `side` does to a session: while a pair is presented it
/// turns to committing that side's file; otherwise nothing changes.
pub open spec fn spec_make_choice_post(pre: Session, post: Session, side: Side) -> bool {
    &&& post.pairs@ == pre.pairs@
    &&& post.index == pre.index
    &&& post.selected == pre.selected
    &&& post.skipped == pre.skipped
    &&& post.errored == pre.errored
    &&& post.donor == pre.donor
    &&& post.prefetch == pre.prefetch
    &&& if pre.phase is Presenting {
        post.phase == (Phase::Committing {
            chosen: match side {
                Side::A => pre.pairs@[pre.index as int].path1,
                Side::B => pre.pairs@[pre.index as int].path2,
            },
        })
    } else {
        post.phase == pre.phase
    }
}

/// What skipping does to a session: while a pair is presented, the
/// skipped counter grows by one and the session moves past the pair,
/// consuming a prefetched next pair into its presentation; otherwise
/// nothing changes. A marked donor is kept either way.
pub open spec fn spec_skip_post(pre: Session, post: Session) -> bool {
    &&& post.pairs@ == pre.pairs@
    &&& post.selected == pre.selected
    &&& post.errored == pre.errored
    &&& post.donor == pre.donor
    &&& if pre.phase is Presenting {
        &&& post.skipped == pre.skipped + 1
        &&& post.index == pre.index + 1
        &&& post.prefetch is None
        &&& (post.index >= pre.pairs@.len() ==> post.phase is Done)
        &&& (post.index < pre.pairs@.len() ==> match pre.prefetch {
            Some(slot) => post.phase == (Phase::Presenting {
                analysis1: slot.analysis1,
                analysis2: slot.analysis2,
            }),
            None => post.phase is Preparing,
        })
    } else {
        &&& post.skipped == pre.skipped
        &&& post.index == pre.index
        &&& post.phase == pre.phase
        &&& post.prefetch == pre.prefetch
    }
}

/// What a metadata-transfer request does to a session and what it
/// reports: while a pair is presented, the strictly richer side's path
/// becomes the donor and that side is reported, while equal counts
/// (including both zero) clear any donor and report no transfer;
/// otherwise nothing changes and no transfer is reported. Nothing else
/// moves in either case.
pub open spec fn spec_transfer_post(pre: Session, post: Session, r: TransferOutcome) -> bool {
    &&& post.pairs@ == pre.pairs@
    &&& post.index == pre.index
    &&& post.selected == pre.selected
    &&& post.skipped == pre.skipped
    &&& post.errored == pre.errored
    &&& post.phase == pre.phase
    &&& post.prefetch == pre.prefetch
    &&& match pre.phase {
        Phase::Presenting { analysis1, analysis2 } => {
            if analysis1.metadata_count > analysis2.metadata_count {
                r == TransferOutcome::DonorA && post.donor == Some(
                    pre.pairs@[pre.index as int].path1,
                )
            } else if analysis2.metadata_count > analysis1.metadata_count {
                r == TransferOutcome::DonorB && post.donor == Some(
                    pre.pairs@[pre.index as int].path2,
                )
            } else {
                r == TransferOutcome::NoTransfer && post.donor is None
            }
        },
        _ => r == TransferOutcome::NoTransfer && post.donor == pre.donor,
    }
}

/// What cancelling does to a session: it is done at once, the prefetch
/// slot is discarded, and the counters and donor stay as they are.
pub open spec fn spec_cancel_post(pre: Session, post: Session) -> bool {
    &&& post.phase is Done
    &&& post.pairs@ == pre.pairs@
    &&& post.index == pre.index
    &&& post.selected == pre.selected
    &&& post.skipped == pre.skipped
    &&& post.errored == pre.errored
    &&& post.donor == pre.donor
    &&& post.prefetch is None
}

impl Session {
    /// Internal consistency: the position stays within the list and is
    /// final exactly in `Done`; every passed pair is counted exactly
    /// once; a filled prefetch slot always belongs to the next pair,
    /// while it is being presented or committed.
    pub open spec fn wf(self) -> bool {
        &&& self.index <= self.pairs@.len()
        &&& (!(self.phase is Done) ==> self.index < self.pairs@.len())
        &&& self.selected + self.skipped + self.errored == self.index
        &&& match self.prefetch {
            Some(slot) => slot.index == self.index + 1 && slot.index < self.pairs@.len() && (
            self.phase is Presenting || self.phase is Committing),
            None => true,
        }
    }

    /// Starts a session over the matched pairs: with none it is done at
    /// once, else the first pair is prepared.
    pub fn new(pairs: Vec<MatchedPair>) -> (r: Session)
        ensures
            r.wf(),
            r.pairs@ == pairs@,
            r.index == 0,
            r.selected == 0,
            r.skipped == 0,
            r.errored == 0,
            r.donor is None,
            r.prefetch is None,
            pairs@.len() == 0 ==> r.phase is Done,
            pairs@.len() > 0 ==> r.phase is Preparing,
    {
        let phase = if pairs.len() == 0 {
            Phase::Done
        } else {
            Phase::Preparing
        };
        Session {
            pairs,
            index: 0,
            selected: 0,
            skipped: 0,
            errored: 0,
            donor: None,
            phase,
            prefetch: None,
        }
    }

    /// The work the driver should have running: analysis of the current
    /// pair while preparing, the commit (with the next pair's analysis
    /// as background prefetch) while committing, nothing otherwise. The
    /// driver performs each action once and reports back.
    pub fn next_action(&self) -> (r: Option<Action>)
        requires
            self.wf(),
        ensures
            match self.phase {
                Phase::Preparing => r == Some(Action::Analyze { index: self.index }),
                Phase::Committing { chosen } => r == Some(
                    Action::Commit {
                        source: chosen,
                        donor: self.donor,
                        prefetch: if self.index + 1 < self.pairs@.len() && self.prefetch is None {
                            Some((self.index + 1) as usize)
                        } else {
                            None
                        },
                    },
                ),
                Phase::Presenting { .. } => r is None,
                Phase::Done => r is None,
            },
    {
        match &self.phase {
            Phase::Preparing => Some(Action::Analyze { index: self.index }),
            Phase::Committing { chosen } => {
                let donor = match &self.donor {
                    Some(d) => Some(d.clone()),
                    None => None,
                };
                let has_slot = match &self.prefetch {
                    Some(_) => true,
                    None => false,
                };
                let prefetch = if !has_slot && self.index < self.pairs.len() - 1 {
                    Some(self.index + 1)
                } else {
                    None
                };
                Some(Action::Commit { source: chosen.clone(), donor, prefetch })
            },
            Phase::Presenting { .. } => None,
            Phase::Done => None,
        }
    }

    /// Moves past the current pair: the next pair's prefetched analyses,
    /// when present, are consumed into a presentation; else the next
    /// pair is prepared; past the last pair the session is done. The
    /// slot is emptied either way.
    fn advance_index(&mut self)
        requires
            old(self).index < old(self).pairs@.len(),
            old(self).selected + old(self).skipped + old(self).errored == old(self).index + 1,
            match old(self).prefetch {
                Some(slot) => slot.index == old(self).index + 1 && slot.index < old(
                    self,
                ).pairs@.len(),
                None => true,
            },
        ensures
            final(self).wf(),
            final(self).pairs@ == old(self).pairs@,
            final(self).index == old(self).index + 1,
            final(self).selected == old(self).selected,
            final(self).skipped == old(self).skipped,
            final(self).errored == old(self).errored,
            final(self).donor == old(self).donor,
            final(self).prefetch is None,
            final(self).index >= old(self).pairs@.len() ==> final(self).phase is Done,
            final(self).index < old(self).pairs@.len() ==> match old(self).prefetch {
                Some(slot) => final(self).phase == (Phase::Presenting {
                    analysis1: slot.analysis1,
                    analysis2: slot.analysis2,
                }),
                None => final(self).phase is Preparing,
            },
    {
        let _cap: usize = self.pairs.len();  // the pair count fits usize, so the bumps below cannot overflow
        self.index = self.index + 1;
        let slot = self.prefetch.take();
        if self.index >= self.pairs.len() {
            self.phase = Phase::Done;
        } else {
            match slot {
                Some(s) => {
                    self.phase = Phase::Presenting {
                        analysis1: s.analysis1,
                        analysis2: s.analysis2,
                    };
                },
                None => {
                    self.phase = Phase::Preparing;
                },
            }
        }
    }

    /// Delivers the finished analyses of the pair at `at`: they enter
    /// the presentation when that pair is current and awaited, fill the
    /// empty prefetch slot when they belong to the next pair while it
    /// is being presented or committed, and are discarded as stale
    /// otherwise.
    pub fn deliver_analyses(&mut self, at: usize, analysis1: ImageAnalysis, analysis2: ImageAnalysis)
        requires
            old(self).wf(),
        ensures
            final(self).wf(),
            final(self).pairs@ == old(self).pairs@,
            final(self).index == old(self).index,
            final(self).selected == old(self).selected,
            final(self).skipped == old(self).skipped,
            final(self).errored == old(self).errored,
            final(self).donor == old(self).donor,
            if old(self).phase is Preparing && at == old(self).index {
                final(self).phase == (Phase::Presenting { analysis1, analysis2 }) && final(self).prefetch == old(self).prefetch
            } else if (old(self).phase is Presenting || old(self).phase is Committing) && at
                == old(self).index + 1 && at < old(self).pairs@.len() && old(self).prefetch
                is None {
                final(self).phase == old(self).phase && final(self).prefetch == Some(
                    PrefetchSlot { index: at, analysis1, analysis2 },
                )
            } else {
                final(self).phase == old(self).phase && final(self).prefetch == old(self).prefetch
            },
    {
        let is_preparing = match &self.phase {
            Phase::Preparing => true,
            _ => false,
        };
        if is_preparing && at == self.index {
            self.phase = Phase::Presenting { analysis1, analysis2 };
            return;
        }
        let can_prefetch = match &self.phase {
            Phase::Presenting { .. } => true,
            Phase::Committing { .. } => true,
            _ => false,
        };
        let slot_empty = match &self.prefetch {
            Some(_) => false,
            None => true,
        };
        if can_prefetch && slot_empty && self.index < usize::MAX && at == self.index + 1 && at
            < self.pairs.len() {
            self.prefetch = Some(PrefetchSlot { index: at, analysis1, analysis2 });
        }
    }

    /// Chooses one side of the presented pair: the session turns to
    /// committing that side's file. Outside a presentation nothing
    /// changes.
    pub fn make_choice(&mut self, side: Side)
        requires
            old(self).wf(),
        ensures
            final(self).wf(),
            spec_make_choice_post(*old(self), *final(self), side),
    {
        let is_presenting = match &self.phase {
            Phase::Presenting { .. } => true,
            _ => false,
        };
        if is_presenting {
            let chosen = match side {
                Side::A => self.pairs[self.index].path1.clone(),
                Side::B => self.pairs[self.index].path2.clone(),
            };
            self.phase = Phase::Committing { chosen };
        }
    }

    /// Skips the presented pair: the skipped counter grows by one and
    /// the session moves on; a marked donor is kept for the next commit.
    /// Outside a presentation nothing changes.
    pub fn skip(&mut self)
        requires
            old(self).wf(),
        ensures
            final(self).wf(),
            spec_skip_post(*old(self), *final(self)),
    {
        let is_presenting = match &self.phase {
            Phase::Presenting { .. } => true,
            _ => false,
        };
        if is_presenting {
            let _cap: usize = self.pairs.len();  // the pair count fits usize, so the bumps below cannot overflow
            self.skipped = self.skipped + 1;
            self.advance_index();
        }
    }

    /// Compares the presented analyses' metadata counts: the strictly
    /// richer side is marked as donor for the next commit and reported;
    /// with equal counts (including both zero) any prior donor is
    /// cleared and no transfer is reported. Everything else stays put.
    pub fn request_metadata_transfer(&mut self) -> (r: TransferOutcome)
        requires
            old(self).wf(),
        ensures
            final(self).wf(),
            spec_transfer_post(*old(self), *final(self), r),
    {
        let counts = match &self.phase {
            Phase::Presenting { analysis1, analysis2 } => Some(
                (analysis1.metadata_count, analysis2.metadata_count),
            ),
            _ => None,
        };
        match counts {
            Some((c1, c2)) => {
                if c1 > c2 {
                    self.donor = Some(self.pairs[self.index].path1.clone());
                    TransferOutcome::DonorA
                } else if c2 > c1 {
                    self.donor = Some(self.pairs[self.index].path2.clone());
                    TransferOutcome::DonorB
                } else {
                    self.donor = None;
                    TransferOutcome::NoTransfer
                }
            },
            None => TransferOutcome::NoTransfer,
        }
    }

    /// Records the outcome of the commit the session was waiting for: a
    /// success grows the selected counter, a failure the errored counter
    /// — never the selected one — and the session moves on either way.
    /// The donor slot is cleared unconditionally. Outside a commit
    /// nothing changes.
    pub fn commit_finished(&mut self, outcome: &Result<String, CommitError>)
        requires
            old(self).wf(),
        ensures
            final(self).wf(),
            final(self).pairs@ == old(self).pairs@,
            if old(self).phase is Committing {
                final(self).donor is None && (match outcome {
                    Ok(_) => final(self).selected == old(self).selected + 1 && final(self).errored
                        == old(self).errored,
                    Err(_) => final(self).errored == old(self).errored + 1 && final(self).selected
                        == old(self).selected,
                }) && final(self).skipped == old(self).skipped && final(self).index == old(self).index + 1 && final(self).prefetch is None && (final(self).index >= old(self).pairs@.len() ==> final(self).phase is Done) && (final(self).index < old(self).pairs@.len() ==> match old(self).prefetch {
                    Some(slot) => final(self).phase == (Phase::Presenting {
                        analysis1: slot.analysis1,
                        analysis2: slot.analysis2,
                    }),
                    None => final(self).phase is Preparing,
                })
            } else {
                *final(self) == *old(self)
            },
    {
        let is_committing = match &self.phase {
            Phase::Committing { .. } => true,
            _ => false,
        };
        if is_committing {
            let _cap: usize = self.pairs.len();  // the pair count fits usize, so the bumps below cannot overflow
            self.donor = None;
            match outcome {
                Ok(_) => {
                    self.selected = self.selected + 1;
                },
                Err(_) => {
                    self.errored = self.errored + 1;
                },
            }
            self.advance_index();
        }
    }

    /// Records that analyzing the current pair failed: the pair is
    /// counted as errored and passed over, so the session never stalls
    /// on it. A failure reported for any other pair changes nothing: a
    /// failed prefetch is simply requested again when its pair comes up.
    pub fn analysis_failed(&mut self, at: usize)
        requires
            old(self).wf(),
        ensures
            final(self).wf(),
            final(self).pairs@ == old(self).pairs@,
            final(self).donor == old(self).donor,
            if old(self).phase is Preparing && at == old(self).index {
                final(self).errored == old(self).errored + 1 && final(self).selected == old(self).selected && final(self).skipped == old(self).skipped && final(self).index == old(self).index + 1 && (final(self).index >= old(self).pairs@.len() ==> final(self).phase is Done) && (final(self).index < old(self).pairs@.len() ==> final(self).phase is Preparing)
            } else {
                *final(self) == *old(self)
            },
    {
        let is_preparing = match &self.phase {
            Phase::Preparing => true,
            _ => false,
        };
        if is_preparing && at == self.index {
            let _cap: usize = self.pairs.len();  // the pair count fits usize, so the bumps below cannot overflow
            self.errored = self.errored + 1;
            self.advance_index();
        }
    }

    /// Ends the session at once, from any state; in-flight work may
    /// finish but its result will be stale. Counters stay as they are.
    pub fn cancel(&mut self)
        ensures
            spec_cancel_post(*old(self), *final(self)),
            old(self).wf() ==> final(self).wf(),
    {
        self.phase = Phase::Done;
        self.prefetch = None;
    }

    /// Applies an operator decision: each one acts exactly as the method
    /// it names — a choice turns to a commit, a skip counts and moves on,
    /// a transfer request marks the richer side and reports the outcome
    /// (the only decision that returns one), and cancel ends the session.
    pub fn advance(&mut self, decision: Decision) -> (r: Option<TransferOutcome>)
        requires
            old(self).wf(),
        ensures
            final(self).wf(),
            match decision {
                Decision::ChooseA => spec_make_choice_post(*old(self), *final(self), Side::A) && r
                    is None,
                Decision::ChooseB => spec_make_choice_post(*old(self), *final(self), Side::B) && r
                    is None,
                Decision::Skip => spec_skip_post(*old(self), *final(self)) && r is None,
                Decision::RequestMetadataTransfer => match r {
                    Some(outcome) => spec_transfer_post(*old(self), *final(self), outcome),
                    None => false,
                },
                Decision::Cancel => spec_cancel_post(*old(self), *final(self)) && r is None,
            },
    {
        match decision {
            Decision::ChooseA => {
                self.make_choice(Side::A);
                None
            },
            Decision::ChooseB => {
                self.make_choice(Side::B);
                None
            },
            Decision::Skip => {
                self.skip();
                None
            },
            Decision::RequestMetadataTransfer => Some(self.request_metadata_transfer()),
            Decision::Cancel => {
                self.cancel();
                None
            },
        }
    }

    /// The final tally, once the session is done: how many pairs were
    /// committed and how many skipped.
    pub fn final_counts(&self) -> (r: (usize, usize))
        requires
            self.phase is Done,
        ensures
            r.0 == self.selected,
            r.1 == self.skipped,
    {
        (self.selected, self.skipped)
    }
}

} // verus!
