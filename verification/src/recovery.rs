//! Opening the store file with recovery, as a state machine.
//!
//! The caller performs each action and reports how it went; the machine says
//! what comes next. A failed open is answered first by removing the
//! write-ahead log beside the store file, then by moving the store file aside
//! and starting afresh. After that a failed open is final.

use crate::clock::{format_stamp, has_calendar_date, utc_stamp};
use crate::text::join;
use vstd::prelude::*;

verus! {

/// Where opening the store stands.
#[derive(Debug, Clone, Copy, PartialEq, Eq, Structural)]
pub enum RecoveryState {
    /// The store file is opened as it is.
    FirstOpen,
    /// The first open failed: the write-ahead log is removed.
    ClearingLog,
    /// The store file is opened without its write-ahead log.
    SecondOpen,
    /// The second open failed: the store file is moved aside.
    BackingUp,
    /// A fresh store file is opened.
    FinalOpen,
    /// The store is open.
    Ready,
    /// The store could not be opened.
    Failed(RecoveryFailure),
}

/// Why the store could not be opened.
#[derive(Debug, Clone, Copy, PartialEq, Eq, Structural)]
pub enum RecoveryFailure {
    /// The store file could not be moved aside.
    Backup,
    /// The fresh store file could not be opened.
    Open,
}

/// What the caller is to do next.
#[derive(Debug, Clone, Copy, PartialEq, Eq, Structural)]
pub enum RecoveryAction {
    /// Open the store file.
    OpenStore,
    /// Remove the write-ahead log beside the store file, if there is one.
    RemoveLog,
    /// Rename the store file, and its write-ahead log if there is one, to
    /// their backup names; nothing is to do where no store file exists.
    BackUpStore,
    /// Nothing: the store is open.
    Finish,
    /// Nothing: report the failure.
    GiveUp,
}

/// How an action went.
#[derive(Debug, Clone, Copy, PartialEq, Eq, Structural)]
pub enum Outcome {
    Succeeded,
    Failed,
}

impl RecoveryState {
    /// Nothing comes after this state.
    pub open spec fn is_final(self) -> bool {
        self is Ready || self is Failed
    }

    /// The action that this state asks for.
    pub open spec fn action(self) -> RecoveryAction {
        match self {
            RecoveryState::FirstOpen => RecoveryAction::OpenStore,
            RecoveryState::ClearingLog => RecoveryAction::RemoveLog,
            RecoveryState::SecondOpen => RecoveryAction::OpenStore,
            RecoveryState::BackingUp => RecoveryAction::BackUpStore,
            RecoveryState::FinalOpen => RecoveryAction::OpenStore,
            RecoveryState::Ready => RecoveryAction::Finish,
            RecoveryState::Failed(_) => RecoveryAction::GiveUp,
        }
    }

    /// The state that follows this one when its action went as `outcome`
    /// says.
    ///
    /// An open that succeeds ends the recovery. Whether the write-ahead log
    /// could be removed does not matter: the store is opened again. A store
    /// file that cannot be moved aside, and a fresh store file that cannot be
    /// opened, are final.
    pub open spec fn after(self, outcome: Outcome) -> RecoveryState {
        match (self, outcome) {
            (RecoveryState::FirstOpen, Outcome::Succeeded) => RecoveryState::Ready,
            (RecoveryState::FirstOpen, Outcome::Failed) => RecoveryState::ClearingLog,
            (RecoveryState::ClearingLog, _) => RecoveryState::SecondOpen,
            (RecoveryState::SecondOpen, Outcome::Succeeded) => RecoveryState::Ready,
            (RecoveryState::SecondOpen, Outcome::Failed) => RecoveryState::BackingUp,
            (RecoveryState::BackingUp, Outcome::Succeeded) => RecoveryState::FinalOpen,
            (RecoveryState::BackingUp, Outcome::Failed) => RecoveryState::Failed(
                RecoveryFailure::Backup,
            ),
            (RecoveryState::FinalOpen, Outcome::Succeeded) => RecoveryState::Ready,
            (RecoveryState::FinalOpen, Outcome::Failed) => RecoveryState::Failed(
                RecoveryFailure::Open,
            ),
            (RecoveryState::Ready, _) => RecoveryState::Ready,
            (RecoveryState::Failed(why), _) => RecoveryState::Failed(why),
        }
    }

    /// The most actions that are still to come.
    pub open spec fn steps_left(self) -> nat {
        match self {
            RecoveryState::FirstOpen => 5,
            RecoveryState::ClearingLog => 4,
            RecoveryState::SecondOpen => 3,
            RecoveryState::BackingUp => 2,
            RecoveryState::FinalOpen => 1,
            RecoveryState::Ready => 0,
            RecoveryState::Failed(_) => 0,
        }
    }

    /// The most opens that are still to come.
    pub open spec fn opens_left(self) -> nat {
        match self {
            RecoveryState::FirstOpen => 3,
            RecoveryState::ClearingLog => 2,
            RecoveryState::SecondOpen => 2,
            RecoveryState::BackingUp => 1,
            RecoveryState::FinalOpen => 1,
            RecoveryState::Ready => 0,
            RecoveryState::Failed(_) => 0,
        }
    }

    /// The state after the actions went as `outcomes` say, one after the
    /// other.
    pub open spec fn run(self, outcomes: Seq<Outcome>) -> RecoveryState
        decreases outcomes.len(),
    {
        if outcomes.len() == 0 {
            self
        } else {
            self.run(outcomes.drop_last()).after(outcomes.last())
        }
    }

    /// How many opens were asked for while the actions went as `outcomes`
    /// say.
    pub open spec fn opens(self, outcomes: Seq<Outcome>) -> nat
        decreases outcomes.len(),
    {
        if outcomes.len() == 0 {
            0
        } else {
            let before = self.run(outcomes.drop_last());
            if before.action() == RecoveryAction::OpenStore {
                self.opens(outcomes.drop_last()) + 1
            } else {
                self.opens(outcomes.drop_last())
            }
        }
    }

    /// Begins a recovery.
    pub fn start() -> (state: Self)
        ensures
            state == RecoveryState::FirstOpen,
    {
        RecoveryState::FirstOpen
    }

    /// Tells what the caller is to do in this state.
    pub fn next_action(&self) -> (action: RecoveryAction)
        ensures
            action == self.action(),
    {
        match self {
            RecoveryState::FirstOpen => RecoveryAction::OpenStore,
            RecoveryState::ClearingLog => RecoveryAction::RemoveLog,
            RecoveryState::SecondOpen => RecoveryAction::OpenStore,
            RecoveryState::BackingUp => RecoveryAction::BackUpStore,
            RecoveryState::FinalOpen => RecoveryAction::OpenStore,
            RecoveryState::Ready => RecoveryAction::Finish,
            RecoveryState::Failed(_) => RecoveryAction::GiveUp,
        }
    }

    /// Moves on after the action of this state went as `outcome` says, and
    /// tells what the caller is to do next.
    pub fn step(&self, outcome: Outcome) -> (next: (RecoveryState, RecoveryAction))
        ensures
            next.0 == self.after(outcome),
            next.1 == self.after(outcome).action(),
    {
        let state: RecoveryState = match self {
            RecoveryState::FirstOpen => match outcome {
                Outcome::Succeeded => RecoveryState::Ready,
                Outcome::Failed => RecoveryState::ClearingLog,
            },
            RecoveryState::ClearingLog => RecoveryState::SecondOpen,
            RecoveryState::SecondOpen => match outcome {
                Outcome::Succeeded => RecoveryState::Ready,
                Outcome::Failed => RecoveryState::BackingUp,
            },
            RecoveryState::BackingUp => match outcome {
                Outcome::Succeeded => RecoveryState::FinalOpen,
                Outcome::Failed => RecoveryState::Failed(RecoveryFailure::Backup),
            },
            RecoveryState::FinalOpen => match outcome {
                Outcome::Succeeded => RecoveryState::Ready,
                Outcome::Failed => RecoveryState::Failed(RecoveryFailure::Open),
            },
            RecoveryState::Ready => RecoveryState::Ready,
            RecoveryState::Failed(why) => RecoveryState::Failed(*why),
        };
        let action: RecoveryAction = state.next_action();
        (state, action)
    }
}

/// Every action brings the end nearer: a recovery never loops.
pub proof fn lemma_recovery_advances(state: RecoveryState, outcome: Outcome)
    requires
        !state.is_final(),
    ensures
        state.after(outcome).steps_left() < state.steps_left(),
        state.after(outcome).opens_left() <= state.opens_left(),
        state.action() == RecoveryAction::OpenStore ==> state.after(outcome).opens_left()
            < state.opens_left(),
{
}

proof fn lemma_run_bounds(outcomes: Seq<Outcome>)
    ensures
        ({
            let end = RecoveryState::FirstOpen.run(outcomes);
            &&& end.steps_left() + outcomes.len() <= 5 || end.is_final()
            &&& RecoveryState::FirstOpen.opens(outcomes) + end.opens_left() <= 3
        }),
    decreases outcomes.len(),
{
    if outcomes.len() > 0 {
        lemma_run_bounds(outcomes.drop_last());
    }
}

/// A recovery is over after five actions at most, and asks for three opens
/// at most: the first, and one after each of the two escalations.
pub proof fn lemma_recovery_is_bounded(outcomes: Seq<Outcome>)
    ensures
        outcomes.len() >= 5 ==> RecoveryState::FirstOpen.run(outcomes).is_final(),
        RecoveryState::FirstOpen.opens(outcomes) <= 3,
{
    lemma_run_bounds(outcomes);
}

/// A recovery fails only where the store file could not be moved aside or the
/// fresh store file could not be opened, and succeeds only by an open that
/// succeeded.
pub proof fn lemma_recovery_ends(state: RecoveryState, outcome: Outcome)
    requires
        !state.is_final(),
    ensures
        state.after(outcome) is Failed <==> outcome == Outcome::Failed && (state
            == RecoveryState::BackingUp || state == RecoveryState::FinalOpen),
        state.after(outcome) is Ready <==> outcome == Outcome::Succeeded && state.action()
            == RecoveryAction::OpenStore,
{
}

/// The names that a store file and its write-ahead log are moved to.
#[derive(Debug, Clone)]
pub struct BackupNames {
    pub store: String,
    pub log: String,
}

/// The name of the backup of the store file made at the time `stamp`.
pub open spec fn store_backup_text(stamp: Seq<char>) -> Seq<char> {
    "flights.db.bak."@ + stamp
}

/// The name of the backup of the write-ahead log made at the time `stamp`.
pub open spec fn log_backup_text(stamp: Seq<char>) -> Seq<char> {
    "flights.db.db.wal.bak."@ + stamp
}

/// Names the backups made at the time `stamp`.
pub fn backup_names(stamp: &str) -> (names: BackupNames)
    ensures
        names.store@ == store_backup_text(stamp@),
        names.log@ == log_backup_text(stamp@),
{
    BackupNames {
        store: join("flights.db.bak.", stamp),
        log: join("flights.db.db.wal.bak.", stamp),
    }
}

/// Names the backups made `epoch_secs` seconds after the Unix epoch: the
/// names with the stamp of that time, and `None` exactly where the time has
/// no calendar date.
pub fn backup_db(epoch_secs: i64) -> (names: Option<BackupNames>)
    ensures
        names is Some <==> has_calendar_date(epoch_secs),
        names matches Some(n) ==> n.store@ == store_backup_text(utc_stamp(epoch_secs)) && n.log@
            == log_backup_text(utc_stamp(epoch_secs)),
{
    match format_stamp(epoch_secs) {
        Some(stamp) => Some(backup_names(stamp.as_str())),
        None => None,
    }
}

} // verus!
