//! The restart scheduler: owns the supervised subcommand's lifecycle,
//! decides when to cancel and restart it, and emits status diagnostics.
//!
//! The asynchronous work — spawning the run, delivering the cancel
//! signal, awaiting completion — is the embedder's business: it drives
//! this state machine with events and performs the actions it hands
//! back.

use vstd::prelude::*;

verus! {

/// The lifecycle phase of one run handle.
#[derive(Clone, Copy, PartialEq, Eq, Structural, Debug)]
pub enum RunPhase {
    /// The run was requested and is being spawned.
    Starting,
    /// The run is executing.
    Running,
    /// The run was asked to cancel and its teardown is unwinding.
    Cancelling,
    /// The run reached a terminal state, normally or by cancellation.
    Done,
}

/// What the embedder reports to the scheduler.
#[derive(Debug)]
pub enum SchedulerEvent {
    /// A coalesced change batch arrived.
    Batch,
    /// The spawned run has actually started executing.
    RunStarted,
    /// The run completed on its own, successfully.
    RunSucceeded,
    /// The run completed on its own with an error; the loop goes on.
    RunFailed,
    /// A requested cancellation has fully unwound.
    CancelAcked,
}

/// What the embedder must do next.
#[derive(Clone, Copy, PartialEq, Eq, Structural, Debug)]
pub enum SchedulerAction {
    /// Recompute the dependency graph and spawn a new run.
    SpawnRun,
    /// Signal the live run's cancellation token.
    RequestCancel,
}

/// A status line to report, in order.
#[derive(Clone, Copy, PartialEq, Eq, Structural, Debug)]
pub enum Diagnostic {
    ProcessStarted,
    ProcessFinished,
    Restarting,
}

/// The message text of a diagnostic.
pub fn diagnostic_message(d: Diagnostic) -> (r: &'static str)
    ensures
        d == Diagnostic::ProcessStarted ==> r@ == "Process started"@,
        d == Diagnostic::ProcessFinished ==> r@ == "Process finished"@,
        d == Diagnostic::Restarting ==> r@ == "Restarting"@,
{
    match d {
        Diagnostic::ProcessStarted => "Process started",
        Diagnostic::ProcessFinished => "Process finished",
        Diagnostic::Restarting => "Restarting",
    }
}

/// How many handles are live (requested or executing). The supervisor
/// must never let this exceed one.
pub open spec fn spec_live_count(runs: Seq<RunPhase>) -> nat
    decreases runs.len(),
{
    if runs.len() == 0 {
        0
    } else {
        spec_live_count(runs.drop_last()) + if runs.last() == RunPhase::Starting || runs.last()
            == RunPhase::Running || runs.last() == RunPhase::Cancelling {
            1nat
        } else {
            0nat
        }
    }
}

/// Well-formed scheduler state: every handle but the latest has
/// reached its terminal state. A new handle is only ever created after
/// the previous one is fully done.
pub open spec fn spec_scheduler_wf(runs: Seq<RunPhase>) -> bool {
    forall|i: int| 0 <= i < runs.len() - 1 ==> runs[i] == RunPhase::Done
}

/// Under well-formedness at most one handle is live: no two handles
/// are ever simultaneously starting or running.
pub proof fn lemma_no_concurrent_runs(runs: Seq<RunPhase>)
    requires
        spec_scheduler_wf(runs),
    ensures
        spec_live_count(runs) <= 1,
    decreases runs.len(),
{
    if runs.len() > 0 {
        assert forall|i: int| 0 <= i < runs.drop_last().len() - 1 implies runs.drop_last()[i]
            == RunPhase::Done by {
            assert(runs[i] == RunPhase::Done);
        }
        lemma_no_concurrent_runs(runs.drop_last());
        if runs.len() >= 2 {
            assert(runs.drop_last().last() == runs[runs.len() - 2]);
            assert(runs[runs.len() - 2] == RunPhase::Done);
            assert(spec_live_count(runs.drop_last()) == spec_live_count(
                runs.drop_last().drop_last(),
            ));
            lemma_live_count_all_done(runs.drop_last());
        }
    }
}

proof fn lemma_live_count_all_done(runs: Seq<RunPhase>)
    requires
        forall|i: int| 0 <= i < runs.len() ==> runs[i] == RunPhase::Done,
    ensures
        spec_live_count(runs) == 0,
    decreases runs.len(),
{
    if runs.len() > 0 {
        lemma_live_count_all_done(runs.drop_last());
    }
}

/// The restart scheduler. `runs` records every handle ever created
/// with its current phase; `pending_restart` remembers that a batch
/// arrived while a run was being torn down or spawned.
#[derive(Debug)]
pub struct RestartScheduler {
    pub runs: Vec<RunPhase>,
    pub pending_restart: bool,
    pub started_once: bool,
}

impl RestartScheduler {
    /// A fresh scheduler: no handles, nothing pending.
    pub fn new() -> (r: RestartScheduler)
        ensures
            r.runs@.len() == 0,
            !r.pending_restart,
            !r.started_once,
            spec_scheduler_wf(r.runs@),
    {
        RestartScheduler { runs: Vec::new(), pending_restart: false, started_once: false }
    }

    /// The phase of the latest handle, if any.
    pub fn current_phase(&self) -> (r: Option<RunPhase>)
        ensures
            match r {
                Some(p) => self.runs@.len() > 0 && p == self.runs@.last(),
                None => self.runs@.len() == 0,
            },
    {
        if self.runs.len() == 0 {
            None
        } else {
            Some(self.runs[self.runs.len() - 1])
        }
    }

    /// Feeds one event and returns the actions to perform and the
    /// diagnostics to report, in order.
    ///
    /// A batch with no live run spawns one, with a restart notice for
    /// every run but the first. A batch during Starting coalesces into
    /// the already-pending restart. A batch during Running requests
    /// cancellation, reports the restart once, and remembers that a
    /// respawn is owed. A batch during Cancelling merely coalesces: the
    /// second cancellation request is never re-fired. The cancel
    /// acknowledgement, like natural completion with a pending batch,
    /// is what actually spawns the next run — so no batch is ever
    /// dropped and no two handles are live together.
    pub fn on_event(&mut self, e: &SchedulerEvent) -> (r: (
        Vec<SchedulerAction>,
        Vec<Diagnostic>,
    ))
        requires
            spec_scheduler_wf(old(self).runs@),
        ensures
            spec_scheduler_wf(final(self).runs@),
            spec_live_count(final(self).runs@) <= 1,
            match e {
                SchedulerEvent::Batch => {
                    if old(self).runs@.len() == 0 || old(self).runs@.last() == RunPhase::Done {
                        &&& final(self).runs@ == old(self).runs@.push(RunPhase::Starting)
                        &&& r.0@ == seq![SchedulerAction::SpawnRun]
                        &&& r.1@ == (if old(self).started_once {
                            seq![Diagnostic::Restarting]
                        } else {
                            Seq::<Diagnostic>::empty()
                        })
                        &&& final(self).started_once
                        &&& !final(self).pending_restart
                    } else if old(self).runs@.last() == RunPhase::Running {
                        &&& final(self).runs@ == old(self).runs@.update(
                            old(self).runs@.len() - 1,
                            RunPhase::Cancelling,
                        )
                        &&& final(self).pending_restart
                        &&& final(self).started_once == old(self).started_once
                        &&& r.0@ == seq![SchedulerAction::RequestCancel]
                        &&& r.1@ == seq![Diagnostic::Restarting]
                    } else {
                        &&& final(self).runs@ == old(self).runs@
                        &&& final(self).pending_restart
                        &&& final(self).started_once == old(self).started_once
                        &&& r.0@.len() == 0
                        &&& r.1@.len() == 0
                    }
                },
                SchedulerEvent::RunStarted => {
                    &&& final(self).pending_restart == old(self).pending_restart
                    &&& final(self).started_once == old(self).started_once
                    &&& if old(self).runs@.len() > 0 && old(self).runs@.last()
                        == RunPhase::Starting {
                        &&& final(self).runs@ == old(self).runs@.update(
                            old(self).runs@.len() - 1,
                            RunPhase::Running,
                        )
                        &&& r.1@ == seq![Diagnostic::ProcessStarted]
                        &&& r.0@.len() == 0
                    } else {
                        final(self).runs@ == old(self).runs@ && r.0@.len() == 0 && r.1@.len() == 0
                    }
                },
                SchedulerEvent::RunSucceeded | SchedulerEvent::RunFailed => {
                    &&& final(self).started_once == old(self).started_once
                    &&& if old(self).runs@.len() > 0 && old(self).runs@.last()
                        == RunPhase::Running {
                        if old(self).pending_restart {
                            &&& final(self).runs@ == old(self).runs@.update(
                                old(self).runs@.len() - 1,
                                RunPhase::Done,
                            ).push(RunPhase::Starting)
                            &&& !final(self).pending_restart
                            &&& r.0@ == seq![SchedulerAction::SpawnRun]
                            &&& r.1@ == seq![Diagnostic::ProcessFinished]
                        } else {
                            &&& final(self).runs@ == old(self).runs@.update(
                                old(self).runs@.len() - 1,
                                RunPhase::Done,
                            )
                            &&& final(self).pending_restart == old(self).pending_restart
                            &&& r.0@.len() == 0
                            &&& r.1@ == seq![Diagnostic::ProcessFinished]
                        }
                    } else {
                        final(self).runs@ == old(self).runs@ && final(self).pending_restart == old(
                            self,
                        ).pending_restart && r.0@.len() == 0 && r.1@.len() == 0
                    }
                },
                SchedulerEvent::CancelAcked => {
                    &&& final(self).started_once == old(self).started_once
                    &&& if old(self).runs@.len() > 0 && old(self).runs@.last()
                        == RunPhase::Cancelling {
                        &&& final(self).runs@ == old(self).runs@.update(
                            old(self).runs@.len() - 1,
                            RunPhase::Done,
                        ).push(RunPhase::Starting)
                        &&& !final(self).pending_restart
                        &&& r.0@ == seq![SchedulerAction::SpawnRun]
                        &&& r.1@.len() == 0
                    } else {
                        final(self).runs@ == old(self).runs@ && final(self).pending_restart == old(
                            self,
                        ).pending_restart && r.0@.len() == 0 && r.1@.len() == 0
                    }
                },
            },
    {
        let mut actions: Vec<SchedulerAction> = Vec::new();
        let mut diags: Vec<Diagnostic> = Vec::new();
        let n = self.runs.len();
        match e {
            SchedulerEvent::Batch => {
                let idle = n == 0 || self.runs[n - 1] == RunPhase::Done;
                if idle {
                    self.runs.push(RunPhase::Starting);
                    actions.push(SchedulerAction::SpawnRun);
                    if self.started_once {
                        diags.push(Diagnostic::Restarting);
                    }
                    self.started_once = true;
                    self.pending_restart = false;
                } else if self.runs[n - 1] == RunPhase::Running {
                    self.runs.set(n - 1, RunPhase::Cancelling);
                    self.pending_restart = true;
                    actions.push(SchedulerAction::RequestCancel);
                    diags.push(Diagnostic::Restarting);
                } else {
                    self.pending_restart = true;
                }
            },
            SchedulerEvent::RunStarted => {
                if n > 0 && self.runs[n - 1] == RunPhase::Starting {
                    self.runs.set(n - 1, RunPhase::Running);
                    diags.push(Diagnostic::ProcessStarted);
                }
            },
            SchedulerEvent::RunSucceeded | SchedulerEvent::RunFailed => {
                if n > 0 && self.runs[n - 1] == RunPhase::Running {
                    self.runs.set(n - 1, RunPhase::Done);
                    diags.push(Diagnostic::ProcessFinished);
                    if self.pending_restart {
                        self.pending_restart = false;
                        self.runs.push(RunPhase::Starting);
                        actions.push(SchedulerAction::SpawnRun);
                    }
                }
            },
            SchedulerEvent::CancelAcked => {
                if n > 0 && self.runs[n - 1] == RunPhase::Cancelling {
                    self.runs.set(n - 1, RunPhase::Done);
                    self.pending_restart = false;
                    self.runs.push(RunPhase::Starting);
                    actions.push(SchedulerAction::SpawnRun);
                }
            },
        }
        proof {
            assert forall|i: int| 0 <= i < self.runs@.len() - 1 implies self.runs@[i]
                == RunPhase::Done by {}
            lemma_no_concurrent_runs(self.runs@);
        }
        (actions, diags)
    }
}

} // verus!
