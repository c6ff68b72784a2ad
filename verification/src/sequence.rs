use vstd::prelude::*;

use crate::classify::{lemma_partition_total, partition_by_owner, spec_foreign, spec_owned};
use crate::record::{ProcessInfo, process_models};

verus! {

/// Where the termination run stands.
#[derive(Clone, Copy, Debug, PartialEq, Eq, Structural)]
pub enum Phase {
    /// No record at all came out of the listing.
    Empty,
    /// Killing the invoking user's own records, one by one.
    Owned,
    /// Waiting for the confirmation answer about the foreign records.
    Confirm,
    /// Killing the foreign records through elevation, one by one.
    Foreign,
    /// The foreign records were declined and are being reported skipped.
    Skipped,
    /// Reporting the total killed, zero included.
    Summary,
    /// Nothing is left to do.
    Done,
}

/// What the driver of the run must do next.
#[derive(Debug)]
pub enum Action {
    /// Invoke the termination collaborator on `pid`, through the elevation
    /// collaborator when `elevated` is set.
    Kill { pid: String, elevated: bool },
    /// Show the foreign records and read a yes/no answer.
    AskConfirmation,
    /// Report that `count` foreign records were skipped.
    ReportSkipped { count: usize },
    /// Report that `killed` processes were terminated.
    ReportSummary { killed: usize },
    /// Report that no process holds the port, with the elevation hint.
    ReportNoProcesses,
    /// Stop: the run is over.
    Finished,
}

/// The linear termination run over one partitioned record list: owned
/// records are killed unconditionally, foreign ones only after an
/// affirmative confirmation, and the outcome is reported at the end.
pub struct Sequencer {
    pub owned: Vec<ProcessInfo>,
    pub foreign: Vec<ProcessInfo>,
    pub next_idx: usize,
    pub killed: usize,
    pub phase: Phase,
}

impl Sequencer {
    /// Internal consistency of the run: the cursor stays inside the list the
    /// phase walks, confirmation questions only arise when foreign records
    /// exist, and the kill count never exceeds the attempts made so far.
    pub open spec fn wf(self) -> bool {
        &&& self.owned@.len() + self.foreign@.len() <= usize::MAX
        &&& match self.phase {
            Phase::Empty => self.owned@.len() == 0 && self.foreign@.len() == 0 && self.killed
                == 0,
            Phase::Owned => self.next_idx < self.owned@.len() && self.killed <= self.next_idx,
            Phase::Confirm => self.foreign@.len() > 0 && self.killed <= self.owned@.len(),
            Phase::Foreign => self.next_idx < self.foreign@.len() && self.killed
                <= self.owned@.len() + self.next_idx,
            Phase::Skipped => self.foreign@.len() > 0 && self.killed <= self.owned@.len(),
            Phase::Summary => self.killed <= self.owned@.len() + self.foreign@.len(),
            Phase::Done => self.killed <= self.owned@.len() + self.foreign@.len(),
        }
    }

    /// What the run demands of the driver in state `s`: exactly one action,
    /// determined by the phase.
    pub open spec fn spec_action_ok(s: Sequencer, a: Action) -> bool {
        match s.phase {
            Phase::Empty => a is ReportNoProcesses,
            Phase::Owned => a matches Action::Kill { pid, elevated } && pid@
                == s.owned@[s.next_idx as int]@.pid && !elevated,
            Phase::Confirm => a is AskConfirmation,
            Phase::Foreign => a matches Action::Kill { pid, elevated } && pid@
                == s.foreign@[s.next_idx as int]@.pid && elevated,
            Phase::Skipped => a matches Action::ReportSkipped { count } && count
                == s.foreign@.len(),
            Phase::Summary => a matches Action::ReportSummary { killed } && killed == s.killed,
            Phase::Done => a is Finished,
        }
    }

    /// Partitions the records by ownership against `current_user` and starts
    /// the run: no records at all leads straight to the report; otherwise the
    /// owned records are killed first and the foreign ones wait for
    /// confirmation.
    pub fn new(records: Vec<ProcessInfo>, current_user: &String) -> (s: Sequencer)
        ensures
            s.wf(),
            process_models(s.owned@) == spec_owned(process_models(records@), current_user@),
            process_models(s.foreign@) == spec_foreign(process_models(records@), current_user@),
            s.owned@.len() + s.foreign@.len() == records@.len(),
            s.killed == 0,
            records@.len() == 0 ==> s.phase is Empty,
            s.owned@.len() > 0 ==> s.phase is Owned && s.next_idx == 0,
            records@.len() > 0 && s.owned@.len() == 0 ==> s.phase is Confirm,
    {
        let n = records.len();
        let ghost rm = process_models(records@);
        let (owned_part, foreign_part) = partition_by_owner(records, current_user);
        proof {
            lemma_partition_total(rm, current_user@);
        }
        let phase = if n == 0 {
            Phase::Empty
        } else if owned_part.len() > 0 {
            Phase::Owned
        } else {
            Phase::Confirm
        };
        Sequencer { owned: owned_part, foreign: foreign_part, next_idx: 0, killed: 0, phase }
    }

    /// The one action the driver must perform now.
    pub fn next_action(&self) -> (a: Action)
        requires
            self.wf(),
        ensures
            Self::spec_action_ok(*self, a),
    {
        match self.phase {
            Phase::Empty => Action::ReportNoProcesses,
            Phase::Owned => Action::Kill {
                pid: self.owned[self.next_idx].pid.clone(),
                elevated: false,
            },
            Phase::Confirm => Action::AskConfirmation,
            Phase::Foreign => Action::Kill {
                pid: self.foreign[self.next_idx].pid.clone(),
                elevated: true,
            },
            Phase::Skipped => Action::ReportSkipped { count: self.foreign.len() },
            Phase::Summary => Action::ReportSummary { killed: self.killed },
            Phase::Done => Action::Finished,
        }
    }

    /// Notes the outcome of the termination attempt just made: success (the
    /// collaborator printed no error) counts the process killed; failure
    /// leaves the count alone; either way the batch moves on to the next
    /// record, never aborting.
    pub fn record_kill_result(&mut self, ok: bool)
        requires
            old(self).wf(),
            old(self).phase is Owned || old(self).phase is Foreign,
        ensures
            final(self).wf(),
            final(self).owned == old(self).owned,
            final(self).foreign == old(self).foreign,
            final(self).killed == old(self).killed + (if ok {
                1int
            } else {
                0int
            }),
            old(self).phase is Owned ==> (if old(self).next_idx + 1 < old(self).owned@.len() {
                final(self).phase is Owned && final(self).next_idx == old(self).next_idx + 1
            } else if old(self).foreign@.len() > 0 {
                final(self).phase is Confirm
            } else {
                final(self).phase is Summary
            }),
            old(self).phase is Foreign ==> (if old(self).next_idx + 1 < old(
                self,
            ).foreign@.len() {
                final(self).phase is Foreign && final(self).next_idx == old(self).next_idx + 1
            } else {
                final(self).phase is Summary
            }),
    {
        if ok {
            self.killed = self.killed + 1;
        }
        match self.phase {
            Phase::Owned => {
                if self.next_idx + 1 < self.owned.len() {
                    self.next_idx = self.next_idx + 1;
                } else if self.foreign.len() > 0 {
                    self.phase = Phase::Confirm;
                    self.next_idx = 0;
                } else {
                    self.phase = Phase::Summary;
                    self.next_idx = 0;
                }
            },
            Phase::Foreign => {
                if self.next_idx + 1 < self.foreign.len() {
                    self.next_idx = self.next_idx + 1;
                } else {
                    self.phase = Phase::Summary;
                    self.next_idx = 0;
                }
            },
            _ => {},
        }
    }

    /// Applies the confirmation answer: an affirmative one moves on to the
    /// foreign records; any other answer skips them all, so that no elevated
    /// termination will ever be proposed.
    pub fn record_confirmation(&mut self, affirmative: bool)
        requires
            old(self).wf(),
            old(self).phase is Confirm,
        ensures
            final(self).wf(),
            final(self).owned == old(self).owned,
            final(self).foreign == old(self).foreign,
            final(self).killed == old(self).killed,
            affirmative ==> final(self).phase is Foreign && final(self).next_idx == 0,
            !affirmative ==> final(self).phase is Skipped,
    {
        if affirmative {
            self.phase = Phase::Foreign;
            self.next_idx = 0;
        } else {
            self.phase = Phase::Skipped;
        }
    }

    /// Moves past the report the driver has just delivered.
    pub fn acknowledge_report(&mut self)
        requires
            old(self).wf(),
            old(self).phase is Empty || old(self).phase is Skipped || old(self).phase
                is Summary,
        ensures
            final(self).wf(),
            final(self).owned == old(self).owned,
            final(self).foreign == old(self).foreign,
            final(self).killed == old(self).killed,
            old(self).phase is Empty ==> final(self).phase is Done,
            old(self).phase is Skipped ==> final(self).phase is Summary,
            old(self).phase is Summary ==> final(self).phase is Done,
    {
        match self.phase {
            Phase::Empty => {
                self.phase = Phase::Done;
            },
            Phase::Skipped => {
                self.phase = Phase::Summary;
            },
            Phase::Summary => {
                self.phase = Phase::Done;
            },
            _ => {},
        }
    }
}

/// An elevated termination is proposed only in the confirmed foreign stage:
/// every other state demands something else of the driver.
pub proof fn lemma_elevated_only_after_confirmation(s: Sequencer, a: Action)
    requires
        s.wf(),
        Sequencer::spec_action_ok(s, a),
    ensures
        (a matches Action::Kill { elevated, .. } && elevated) ==> s.phase is Foreign,
{
}

/// Once the foreign records were skipped, or the run is reporting or done,
/// no action it demands is a termination.
pub proof fn lemma_skipped_never_kills(s: Sequencer, a: Action)
    requires
        s.wf(),
        s.phase is Skipped || s.phase is Summary || s.phase is Done,
        Sequencer::spec_action_ok(s, a),
    ensures
        !(a is Kill),
{
}

} // verus!
