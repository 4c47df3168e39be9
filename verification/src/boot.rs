//! The boot checkpoints and what is done at each, in order.
//!
//! At the early checkpoint the process joins the namespace of the init
//! process and detaches into a private copy; only then modules marked for
//! removal are swept, the policy is patched and the overlay is mounted. A
//! failure of the namespace steps ends the checkpoint, since nothing may be
//! mounted outside a private namespace. A failure of a later step is noted
//! and the checkpoint goes on.
use crate::namespace::Namespace;
use vstd::prelude::*;

verus! {

#[derive(Clone, Copy, PartialEq, Eq, Structural, Debug)]
pub enum Checkpoint {
    EarlyFsReady,
    ServicesStart,
    BootCompleted,
}

#[derive(Clone, Copy, PartialEq, Eq, Structural, Debug)]
pub enum BootStep {
    /// Join the namespace of the init process.
    JoinInit,
    /// Detach into a private namespace.
    Detach,
    /// Remove the modules that are marked for removal.
    SweepModules,
    /// Apply the policy patches.
    PatchPolicy,
    /// Mount the overlay.
    ActivateOverlay,
}

#[derive(Clone, Copy, PartialEq, Eq, Structural, Debug)]
pub enum BootAction {
    /// Do this step, then call [`BootRun::record`].
    Run { step: BootStep },
    /// The checkpoint is over; `success` says whether every step was done.
    Finish { success: bool },
}

/// A checkpoint under way.
#[derive(Clone, Copy, PartialEq, Eq, Structural, Debug)]
pub struct BootRun {
    pub checkpoint: Checkpoint,
    /// The place of the step that is done next.
    pub cursor: usize,
    pub namespace: Namespace,
    /// Whether a step has failed.
    pub failed: bool,
    /// Whether a step failed without which the checkpoint cannot go on.
    pub halted: bool,
}

/// The steps of a checkpoint, in order.
pub open spec fn steps_of(checkpoint: Checkpoint) -> Seq<BootStep> {
    match checkpoint {
        Checkpoint::EarlyFsReady => seq![
            BootStep::JoinInit,
            BootStep::Detach,
            BootStep::SweepModules,
            BootStep::PatchPolicy,
            BootStep::ActivateOverlay,
        ],
        Checkpoint::ServicesStart => Seq::empty(),
        Checkpoint::BootCompleted => Seq::empty(),
    }
}

/// The steps without which a checkpoint cannot go on.
pub open spec fn is_required(step: BootStep) -> bool {
    step == BootStep::JoinInit || step == BootStep::Detach
}

/// The namespace after a step was done.
pub open spec fn namespace_after(namespace: Namespace, step: BootStep) -> Namespace {
    match step {
        BootStep::JoinInit => Namespace::Joined { pid: 1 },
        BootStep::Detach => Namespace::Private,
        _ => namespace,
    }
}

pub fn sequence(checkpoint: Checkpoint) -> (steps: Vec<BootStep>)
    ensures
        steps@ == steps_of(checkpoint),
{
    let mut steps: Vec<BootStep> = Vec::new();
    match checkpoint {
        Checkpoint::EarlyFsReady => {
            steps.push(BootStep::JoinInit);
            steps.push(BootStep::Detach);
            steps.push(BootStep::SweepModules);
            steps.push(BootStep::PatchPolicy);
            steps.push(BootStep::ActivateOverlay);
        },
        Checkpoint::ServicesStart => {},
        Checkpoint::BootCompleted => {},
    }
    assert(steps@ =~= steps_of(checkpoint));
    steps
}

impl BootRun {
    /// The cursor is within the steps, and a run that has gone past the
    /// detaching is in a private namespace.
    pub open spec fn wf(self) -> bool {
        let steps = steps_of(self.checkpoint);
        &&& self.cursor <= steps.len()
        &&& self.halted ==> self.failed
        &&& (exists|i: int| 0 <= i < self.cursor && steps[i] == BootStep::Detach) ==> self.namespace
            == Namespace::Private
    }

    pub open spec fn finished(self) -> bool {
        self.halted || self.cursor >= steps_of(self.checkpoint).len()
    }

    pub open spec fn wanted(self) -> BootAction {
        if self.finished() {
            BootAction::Finish { success: !self.failed }
        } else {
            BootAction::Run { step: steps_of(self.checkpoint)[self.cursor as int] }
        }
    }

    /// The run after the step under the cursor was tried.
    pub open spec fn recording(self, done: bool) -> BootRun {
        if self.finished() {
            self
        } else {
            let step = steps_of(self.checkpoint)[self.cursor as int];
            if done {
                BootRun {
                    checkpoint: self.checkpoint,
                    cursor: (self.cursor + 1) as usize,
                    namespace: namespace_after(self.namespace, step),
                    failed: self.failed,
                    halted: false,
                }
            } else if is_required(step) {
                BootRun {
                    checkpoint: self.checkpoint,
                    cursor: self.cursor,
                    namespace: self.namespace,
                    failed: true,
                    halted: true,
                }
            } else {
                BootRun {
                    checkpoint: self.checkpoint,
                    cursor: (self.cursor + 1) as usize,
                    namespace: self.namespace,
                    failed: true,
                    halted: false,
                }
            }
        }
    }

    /// A checkpoint of which nothing is done yet, in the namespace that the
    /// process inherited.
    pub open spec fn fresh(checkpoint: Checkpoint) -> BootRun {
        BootRun {
            checkpoint,
            cursor: 0,
            namespace: Namespace::Inherited,
            failed: false,
            halted: false,
        }
    }

    /// Begins a checkpoint.
    pub fn begin(checkpoint: Checkpoint) -> (run: BootRun)
        ensures
            run == BootRun::fresh(checkpoint),
            run.wf(),
    {
        BootRun { checkpoint, cursor: 0, namespace: Namespace::Inherited, failed: false, halted: false }
    }

    /// Says what to do next. The overlay is mounted, the policy patched and
    /// the modules swept only in a private namespace.
    pub fn next(&self) -> (action: BootAction)
        requires
            self.wf(),
        ensures
            action == self.wanted(),
            action matches BootAction::Run { step } && !is_required(step) ==> self.namespace
                == Namespace::Private,
    {
        let steps = sequence(self.checkpoint);
        if self.halted || self.cursor >= steps.len() {
            BootAction::Finish { success: !self.failed }
        } else {
            proof {
                if !is_required(steps@[self.cursor as int]) {
                    assert(steps@[1] == BootStep::Detach);
                    assert(self.cursor > 1);
                }
            }
            BootAction::Run { step: steps[self.cursor] }
        }
    }

    /// Takes the result of the step that [`BootRun::next`] handed out.
    pub fn record(&mut self, done: bool)
        requires
            old(self).wf(),
        ensures
            *final(self) == old(self).recording(done),
            final(self).wf(),
    {
        let steps = sequence(self.checkpoint);
        if self.halted || self.cursor >= steps.len() {
            return ;
        }
        let step = steps[self.cursor];
        if done {
            match step {
                BootStep::JoinInit => {
                    self.namespace = Namespace::Joined { pid: 1 };
                },
                BootStep::Detach => {
                    self.namespace = Namespace::Private;
                },
                _ => {},
            }
            proof {
                let at = old(self).cursor as int;
                assert forall|i: int| 0 <= i < at + 1 && steps@[i] == BootStep::Detach implies self.namespace
                    == Namespace::Private by {
                    if i < at {
                        assert(old(self).namespace == Namespace::Private);
                        assert(steps@[1] == BootStep::Detach);
                        assert(at > 1);
                    }
                }
            }
            self.cursor = self.cursor + 1;
        } else {
            self.failed = true;
            if step == BootStep::JoinInit || step == BootStep::Detach {
                self.halted = true;
            } else {
                self.cursor = self.cursor + 1;
            }
        }
    }
}

/// Begins the checkpoint at which the file systems are ready.
pub fn on_early_fs_ready() -> (run: BootRun)
    ensures
        run == BootRun::fresh(Checkpoint::EarlyFsReady),
        run.wf(),
{
    BootRun::begin(Checkpoint::EarlyFsReady)
}

/// Begins the checkpoint at which the services start.
pub fn on_services_start() -> (run: BootRun)
    ensures
        run == BootRun::fresh(Checkpoint::ServicesStart),
        run.wf(),
{
    BootRun::begin(Checkpoint::ServicesStart)
}

/// Begins the checkpoint at which the boot is complete.
pub fn on_boot_completed() -> (run: BootRun)
    ensures
        run == BootRun::fresh(Checkpoint::BootCompleted),
        run.wf(),
{
    BootRun::begin(Checkpoint::BootCompleted)
}

/// A finished checkpoint stays as it is.
pub proof fn law_finished_checkpoint_is_final(run: BootRun, done: bool)
    requires
        run.finished(),
    ensures
        run.recording(done) == run,
{
}

/// A checkpoint succeeds only if no step failed, and a failed namespace
/// step ends it before anything is swept, patched or mounted.
pub proof fn law_namespace_failure_ends_checkpoint(run: BootRun)
    requires
        run.wf(),
        !run.finished(),
        is_required(steps_of(run.checkpoint)[run.cursor as int]),
    ensures
        run.recording(false).wanted() == (BootAction::Finish { success: false }),
{
}

} // verus!
