//! The committees that a node keeps at hand, and the state machine that moves
//! them from one epoch to the next.

use crate::committee::{Committee, CommitteeView, Epoch};
use crate::identity::PublicKey;
use vstd::prelude::*;

verus! {

/// An optional committee, as a mathematical value.
pub open spec fn option_view(committee: Option<Committee>) -> Option<CommitteeView> {
    match committee {
        Some(c) => Some(c@),
        None => None,
    }
}

/// What [`ActiveCommittees`] is, as a mathematical value.
pub ghost struct ActiveCommitteesView {
    pub current: CommitteeView,
    pub previous: Option<CommitteeView>,
    pub next: Option<CommitteeView>,
}

impl ActiveCommitteesView {
    /// The previous committee, where known, is that of the epoch before the
    /// current one, and the next committee, where known, that of the epoch
    /// after it.
    pub open spec fn epochs_in_sequence(self) -> bool {
        &&& (self.previous matches Some(p) ==> p.epoch + 1 == self.current.epoch)
        &&& (self.next matches Some(n) ==> n.epoch == self.current.epoch + 1)
    }

    /// The invariant of the window: three committees of three epochs in a row.
    pub open spec fn valid(self) -> bool {
        &&& self.current.valid()
        &&& (self.previous matches Some(p) ==> p.valid())
        &&& (self.next matches Some(n) ==> n.valid())
        &&& self.epochs_in_sequence()
    }

    /// The current epoch.
    pub open spec fn epoch(self) -> Epoch {
        self.current.epoch
    }

    /// The epoch after the current one.
    pub open spec fn next_epoch(self) -> int {
        self.current.epoch + 1
    }

    /// The committee of `epoch`, as far as the window holds it.
    pub open spec fn committee_for_epoch(self, epoch: Epoch) -> Option<CommitteeView> {
        if epoch == self.current.epoch {
            Some(self.current)
        } else if epoch + 1 == self.current.epoch {
            self.previous
        } else if epoch == self.current.epoch + 1 {
            self.next
        } else {
            None
        }
    }

    /// The node `key` is a member of the previous, the current or the next
    /// committee.
    pub open spec fn contains(self, key: Seq<u8>) -> bool {
        ||| self.current.contains(key)
        ||| (self.previous matches Some(p) && p.contains(key))
        ||| (self.next matches Some(n) && n.contains(key))
    }
}

/// Why three committees make no window.
#[derive(Debug, Clone, Copy, PartialEq, Eq, Structural)]
pub enum InvalidWindow {
    /// The previous committee is not that of the epoch before the current one.
    PreviousEpochMismatch,
    /// The next committee is not that of the epoch after the current one.
    NextEpochMismatch,
}

/// A window of at most three committees: that of the current epoch, and, where
/// known, those of the epoch before it and of the epoch after it.
#[derive(Debug)]
pub struct ActiveCommittees {
    current: Committee,
    previous: Option<Committee>,
    next: Option<Committee>,
}

impl View for ActiveCommittees {
    type V = ActiveCommitteesView;

    closed spec fn view(&self) -> ActiveCommitteesView {
        ActiveCommitteesView {
            current: self.current@,
            previous: option_view(self.previous),
            next: option_view(self.next),
        }
    }
}

impl ActiveCommittees {
    /// The invariant of the window.
    pub open spec fn wf(&self) -> bool {
        self@.valid()
    }

    /// Makes the window of `current`, if the epochs of the other two
    /// committees lie directly before and after its epoch.
    pub fn new(current: Committee, previous: Option<Committee>, next: Option<Committee>) -> (r:
        Result<ActiveCommittees, InvalidWindow>)
        requires
            current.wf(),
            previous matches Some(p) ==> p.wf(),
            next matches Some(n) ==> n.wf(),
        ensures
            r matches Ok(a) ==> a.wf() && a@ == (ActiveCommitteesView {
                current: current@,
                previous: option_view(previous),
                next: option_view(next),
            }),
            r is Ok <==> (ActiveCommitteesView {
                current: current@,
                previous: option_view(previous),
                next: option_view(next),
            }).epochs_in_sequence(),
            r == Err::<ActiveCommittees, InvalidWindow>(InvalidWindow::PreviousEpochMismatch)
                <==> (previous matches Some(p) && p@.epoch + 1 != current@.epoch),
            r == Err::<ActiveCommittees, InvalidWindow>(InvalidWindow::NextEpochMismatch) <==> (
            !(previous matches Some(p) && p@.epoch + 1 != current@.epoch) && (next matches Some(n)
                && n@.epoch != current@.epoch + 1)),
    {
        let epoch: Epoch = current.epoch();
        if let Some(p) = &previous {
            if p.epoch() >= epoch || epoch - p.epoch() != 1 {
                return Err(InvalidWindow::PreviousEpochMismatch);
            }
        }
        if let Some(n) = &next {
            if n.epoch() <= epoch || n.epoch() - epoch != 1 {
                return Err(InvalidWindow::NextEpochMismatch);
            }
        }
        Ok(ActiveCommittees { current, previous, next })
    }

    /// Gives the window up for its current committee.
    pub fn into_current(self) -> (r: Committee)
        ensures
            r@ == self@.current,
    {
        self.current
    }

    /// The current epoch.
    pub fn epoch(&self) -> (r: Epoch)
        ensures
            r == self@.epoch(),
    {
        self.current.epoch()
    }

    /// The committee of the current epoch.
    pub fn current_committee(&self) -> (r: &Committee)
        ensures
            r@ == self@.current,
    {
        &self.current
    }

    /// The committee of the epoch before the current one, where known.
    pub fn previous_committee(&self) -> (r: Option<&Committee>)
        ensures
            r is Some <==> self@.previous is Some,
            r matches Some(c) ==> self@.previous == Some(c@),
    {
        self.previous.as_ref()
    }

    /// The committee of the epoch after the current one, where known.
    pub fn next_committee(&self) -> (r: Option<&Committee>)
        ensures
            r is Some <==> self@.next is Some,
            r matches Some(c) ==> self@.next == Some(c@),
    {
        self.next.as_ref()
    }

    /// The committee of `epoch`, as far as the window holds it.
    pub fn committee_for_epoch(&self, epoch: Epoch) -> (r: Option<&Committee>)
        ensures
            r is Some <==> self@.committee_for_epoch(epoch) is Some,
            r matches Some(c) ==> self@.committee_for_epoch(epoch) == Some(c@),
    {
        let current: Epoch = self.current.epoch();
        if epoch == current {
            Some(&self.current)
        } else if epoch < current && current - epoch == 1 {
            self.previous.as_ref()
        } else if epoch > current && epoch - current == 1 {
            self.next.as_ref()
        } else {
            None
        }
    }

    /// Tells whether the node `key` is a member of the previous, the current
    /// or the next committee.
    pub fn contains(&self, key: &PublicKey) -> (r: bool)
        ensures
            r == self@.contains(key@),
    {
        if self.current.contains(key) {
            return true;
        }
        if let Some(p) = &self.previous {
            if p.contains(key) {
                return true;
            }
        }
        if let Some(n) = &self.next {
            if n.contains(key) {
                return true;
            }
        }
        false
    }
}

impl Clone for ActiveCommittees {
    fn clone(&self) -> (r: Self)
        ensures
            r@ == self@,
    {
        let previous = match &self.previous {
            Some(p) => Some(p.clone()),
            None => None,
        };
        let next = match &self.next {
            Some(n) => Some(n.clone()),
            None => None,
        };
        ActiveCommittees { current: self.current.clone(), previous, next }
    }
}

/// Why a change of committee could not start.
#[derive(Debug, Clone, Copy, PartialEq, Eq, Structural)]
pub enum StartChangeError {
    /// The committee of the next epoch is not known yet.
    UnknownNextCommittee,
    /// A change of committee is already under way.
    ChangeInProgress,
}

/// No change of committee is under way, so none can end.
#[derive(Debug, Clone, Copy, PartialEq, Eq, Structural)]
pub struct ChangeNotInProgress;

/// The committee of the next epoch was known already; the committee that was
/// offered comes back.
#[derive(Debug, PartialEq, Eq)]
pub struct NextCommitteeAlreadySet(pub Committee);

/// What a [`CommitteeTracker`] is, as a mathematical value.
pub ghost struct TrackerView {
    pub committees: ActiveCommitteesView,
    pub change_in_progress: bool,
}

impl TrackerView {
    /// The invariant of the tracker: a change is under way only towards a
    /// known next committee.
    pub open spec fn valid(self) -> bool {
        &&& self.committees.valid()
        &&& (self.change_in_progress ==> self.committees.next is Some)
    }

    /// No next committee is known and no change is under way.
    pub open spec fn is_stable(self) -> bool {
        self.committees.next is None && !self.change_in_progress
    }

    /// The next committee is known and no change is under way.
    pub open spec fn is_next_known(self) -> bool {
        self.committees.next is Some && !self.change_in_progress
    }

    /// A change to the next committee is under way.
    pub open spec fn is_changing(self) -> bool {
        self.committees.next is Some && self.change_in_progress
    }

    /// The epoch after the current one.
    pub open spec fn next_epoch(self) -> int {
        self.committees.next_epoch()
    }

    /// The state after `committee` was offered as the next committee: it is
    /// recorded where none was known, and nothing changes otherwise.
    pub open spec fn with_next(self, committee: CommitteeView) -> TrackerView {
        if self.committees.next is None {
            TrackerView {
                committees: ActiveCommitteesView {
                    current: self.committees.current,
                    previous: self.committees.previous,
                    next: Some(committee),
                },
                change_in_progress: self.change_in_progress,
            }
        } else {
            self
        }
    }

    /// What an attempt to start the change answers.
    pub open spec fn start_change_outcome(self) -> Result<(), StartChangeError> {
        if self.change_in_progress {
            Err(StartChangeError::ChangeInProgress)
        } else if self.committees.next is None {
            Err(StartChangeError::UnknownNextCommittee)
        } else {
            Ok(())
        }
    }

    /// The state after an attempt to start the change.
    pub open spec fn after_start_change(self) -> TrackerView {
        if self.start_change_outcome() is Ok {
            TrackerView { committees: self.committees, change_in_progress: true }
        } else {
            self
        }
    }

    /// The state after an attempt to end the change: where one is under way,
    /// the next committee becomes the current one, the current one the
    /// previous one, and what was the previous one is dropped.
    pub open spec fn after_end_change(self) -> TrackerView {
        if self.change_in_progress && self.committees.next is Some {
            TrackerView {
                committees: ActiveCommitteesView {
                    current: self.committees.next->Some_0,
                    previous: Some(self.committees.current),
                    next: None,
                },
                change_in_progress: false,
            }
        } else {
            self
        }
    }
}

/// The committees at hand together with the mark of a change under way. The
/// tracker is `Stable` (no next committee), `NextKnown` (a next committee, no
/// change under way) or `Changing`.
#[derive(Debug)]
pub struct CommitteeTracker {
    committees: ActiveCommittees,
    change_in_progress: bool,
}

impl View for CommitteeTracker {
    type V = TrackerView;

    closed spec fn view(&self) -> TrackerView {
        TrackerView { committees: self.committees@, change_in_progress: self.change_in_progress }
    }
}

impl Clone for CommitteeTracker {
    fn clone(&self) -> (r: Self)
        ensures
            r@ == self@,
    {
        CommitteeTracker {
            committees: self.committees.clone(),
            change_in_progress: self.change_in_progress,
        }
    }
}

impl CommitteeTracker {
    /// The invariant of the tracker.
    pub open spec fn wf(&self) -> bool {
        self@.valid()
    }

    /// Starts to track `committees`, with no change under way.
    pub fn new(committees: ActiveCommittees) -> (r: CommitteeTracker)
        requires
            committees.wf(),
        ensures
            r.wf(),
            r@ == (TrackerView { committees: committees@, change_in_progress: false }),
    {
        CommitteeTracker { committees, change_in_progress: false }
    }

    /// The committees at hand.
    pub fn committees(&self) -> (r: &ActiveCommittees)
        ensures
            r@ == self@.committees,
    {
        &self.committees
    }

    /// Tells whether a change of committee is under way.
    pub fn is_change_in_progress(&self) -> (r: bool)
        ensures
            r == self@.change_in_progress,
    {
        self.change_in_progress
    }

    /// The epoch after the current one.
    pub fn next_epoch(&self) -> (r: Epoch)
        requires
            self.wf(),
        ensures
            r == self@.next_epoch(),
    {
        self.committees.current.epoch() + 1
    }

    /// Offers `committee` as the committee of the next epoch. It is recorded
    /// where none was known. Where one is known already nothing changes and
    /// the offered committee comes back; it must then be the known one, since
    /// the committee of an epoch never changes once it was seen.
    pub fn set_committee_for_next_epoch(&mut self, committee: Committee) -> (r: Result<
        (),
        NextCommitteeAlreadySet,
    >)
        requires
            old(self).wf(),
            committee.wf(),
            committee@.epoch == old(self)@.next_epoch(),
            old(self)@.committees.next matches Some(known) ==> known == committee@,
        ensures
            final(self).wf(),
            final(self)@ == old(self)@.with_next(committee@),
            final(self)@.committees.next == Some(committee@),
            r is Ok <==> old(self)@.committees.next is None,
            r matches Err(e) ==> e.0@ == committee@ && final(self)@ == old(self)@,
    {
        if self.committees.next.is_some() {
            return Err(NextCommitteeAlreadySet(committee));
        }
        self.committees.next = Some(committee);
        Ok(())
    }

    /// Starts the change to the next committee.
    pub fn start_change(&mut self) -> (r: Result<(), StartChangeError>)
        requires
            old(self).wf(),
        ensures
            final(self).wf(),
            r == old(self)@.start_change_outcome(),
            final(self)@ == old(self)@.after_start_change(),
    {
        if self.change_in_progress {
            return Err(StartChangeError::ChangeInProgress);
        }
        if self.committees.next.is_none() {
            return Err(StartChangeError::UnknownNextCommittee);
        }
        self.change_in_progress = true;
        Ok(())
    }

    /// Ends the change: the next committee becomes the current one and the
    /// current one the previous one. Gives the committee that was retired,
    /// which is the one that was current until now.
    pub fn end_change(&mut self) -> (r: Result<Committee, ChangeNotInProgress>)
        requires
            old(self).wf(),
        ensures
            final(self).wf(),
            r is Ok <==> old(self)@.change_in_progress,
            final(self)@ == old(self)@.after_end_change(),
            r matches Ok(retired) ==> retired@ == old(self)@.committees.current && retired.wf(),
    {
        if !self.change_in_progress {
            return Err(ChangeNotInProgress);
        }
        match self.committees.next.take() {
            Some(next) => {
                let mut retired = next;
                core::mem::swap(&mut self.committees.current, &mut retired);
                let given = retired.clone();
                self.committees.previous = Some(retired);
                self.change_in_progress = false;
                Ok(given)
            },
            None => {
                assert(false);
                Err(ChangeNotInProgress)
            },
        }
    }
}

} // verus!
