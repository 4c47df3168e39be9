//! Root grants: whether a caller is escalated, and in which namespace.
//!
//! The kernel hook decides who may have root and does the escalation; it is
//! asked first, and nothing is touched before it has answered. A caller who
//! asked for the global namespace is then moved into the namespace of the
//! init process, and only after that the escalation is requested. A denial
//! is an outcome, not a failure of this library.
use crate::namespace::{after, record, Namespace, NamespaceOp};
use vstd::prelude::*;

verus! {

/// The process whose namespace is the system's own.
pub const INIT_PID: i32 = 1;

#[derive(Clone, Copy, PartialEq, Eq, Structural, Debug)]
pub struct GrantRequest {
    pub uid: u32,
    pub pid: i32,
    /// Whether the caller asks to be moved into the global namespace.
    pub global: bool,
}

/// What the kernel hook said.
#[derive(Clone, Copy, PartialEq, Eq, Structural, Debug)]
pub enum HookAnswer {
    Allowed,
    Denied,
    /// This kernel has no such hook.
    NotSupported,
}

#[derive(Clone, Copy, PartialEq, Eq, Structural, Debug)]
pub enum GrantError {
    PermissionDenied,
    NotSupported,
    NamespaceError,
}

#[derive(Clone, Copy, PartialEq, Eq, Structural, Debug)]
pub enum GrantOutcome {
    /// The caller has root, in the global namespace or in its own.
    Granted { global: bool },
    Denied { reason: GrantError },
}

#[derive(Clone, Copy, PartialEq, Eq, Structural, Debug)]
pub enum Stage {
    /// The hook is to be asked whether the caller may have root.
    Asking,
    /// The caller is to be moved into the global namespace.
    Joining,
    /// The hook is to be asked for the escalation.
    Escalating,
    Done { outcome: GrantOutcome },
}

#[derive(Clone, Copy, PartialEq, Eq, Structural, Debug)]
pub enum GrantAction {
    /// Ask the hook whether the caller may have root, then call
    /// [`GrantRun::answered`].
    Ask { uid: u32, pid: i32 },
    /// Join the namespace of process `pid`, then call [`GrantRun::joined`].
    Join { pid: i32 },
    /// Ask the hook to escalate, then call [`GrantRun::answered`].
    Escalate,
    Finish { outcome: GrantOutcome },
}

/// A grant under way.
#[derive(Clone, Copy, PartialEq, Eq, Structural, Debug)]
pub struct GrantRun {
    pub request: GrantRequest,
    pub stage: Stage,
    /// The namespace the caller is in.
    pub namespace: Namespace,
}

pub open spec fn denial(answer: HookAnswer) -> GrantError {
    if answer == HookAnswer::NotSupported {
        GrantError::NotSupported
    } else {
        GrantError::PermissionDenied
    }
}

impl GrantRun {
    /// What the run asks for next.
    pub open spec fn wanted(self) -> GrantAction {
        match self.stage {
            Stage::Asking => GrantAction::Ask { uid: self.request.uid, pid: self.request.pid },
            Stage::Joining => GrantAction::Join { pid: INIT_PID },
            Stage::Escalating => GrantAction::Escalate,
            Stage::Done { outcome } => GrantAction::Finish { outcome },
        }
    }

    /// The run after the hook has answered. Anything but `Allowed` ends the
    /// run as denied. `Allowed` to the first question leads on, to the
    /// namespace for a global request and to the escalation otherwise;
    /// `Allowed` to the escalation ends the run as granted.
    pub open spec fn answering(self, answer: HookAnswer) -> GrantRun {
        let stage = match self.stage {
            Stage::Asking => if answer != HookAnswer::Allowed {
                Stage::Done { outcome: GrantOutcome::Denied { reason: denial(answer) } }
            } else if self.request.global {
                Stage::Joining
            } else {
                Stage::Escalating
            },
            Stage::Escalating => if answer != HookAnswer::Allowed {
                Stage::Done { outcome: GrantOutcome::Denied { reason: denial(answer) } }
            } else {
                Stage::Done { outcome: GrantOutcome::Granted { global: self.request.global } }
            },
            other => other,
        };
        GrantRun { request: self.request, stage, namespace: self.namespace }
    }

    /// The run after the join was tried. A join that failed, or that the
    /// caller's namespace does not permit, ends the run with
    /// `NamespaceError`, the caller where it was.
    pub open spec fn joining(self, done: bool) -> GrantRun {
        if self.stage != Stage::Joining {
            self
        } else {
            match after(self.namespace, NamespaceOp::Switch { pid: INIT_PID }, done) {
                Ok(namespace) => GrantRun {
                    request: self.request,
                    stage: Stage::Escalating,
                    namespace,
                },
                Err(_) => GrantRun {
                    request: self.request,
                    stage: Stage::Done {
                        outcome: GrantOutcome::Denied { reason: GrantError::NamespaceError },
                    },
                    namespace: self.namespace,
                },
            }
        }
    }

    /// Begins a grant for a caller that is in `namespace`.
    pub fn begin(request: GrantRequest, namespace: Namespace) -> (run: GrantRun)
        ensures
            run == (GrantRun { request, stage: Stage::Asking, namespace }),
    {
        GrantRun { request, stage: Stage::Asking, namespace }
    }

    pub fn next(&self) -> (action: GrantAction)
        ensures
            action == self.wanted(),
    {
        match self.stage {
            Stage::Asking => GrantAction::Ask { uid: self.request.uid, pid: self.request.pid },
            Stage::Joining => GrantAction::Join { pid: INIT_PID },
            Stage::Escalating => GrantAction::Escalate,
            Stage::Done { outcome } => GrantAction::Finish { outcome },
        }
    }

    /// Takes the hook's answer to what [`GrantRun::next`] asked.
    pub fn answered(&mut self, answer: HookAnswer)
        ensures
            *final(self) == old(self).answering(answer),
    {
        let reason = if answer == HookAnswer::NotSupported {
            GrantError::NotSupported
        } else {
            GrantError::PermissionDenied
        };
        match self.stage {
            Stage::Asking => {
                if answer != HookAnswer::Allowed {
                    self.stage = Stage::Done { outcome: GrantOutcome::Denied { reason } };
                } else if self.request.global {
                    self.stage = Stage::Joining;
                } else {
                    self.stage = Stage::Escalating;
                }
            },
            Stage::Escalating => {
                if answer != HookAnswer::Allowed {
                    self.stage = Stage::Done { outcome: GrantOutcome::Denied { reason } };
                } else {
                    self.stage = Stage::Done {
                        outcome: GrantOutcome::Granted { global: self.request.global },
                    };
                }
            },
            _ => {},
        }
    }

    /// Takes the result of the join that [`GrantRun::next`] asked for.
    pub fn joined(&mut self, done: bool)
        ensures
            *final(self) == old(self).joining(done),
    {
        if self.stage == Stage::Joining {
            match record(self.namespace, NamespaceOp::Switch { pid: INIT_PID }, done) {
                Ok(namespace) => {
                    self.namespace = namespace;
                    self.stage = Stage::Escalating;
                },
                Err(_) => {
                    self.stage = Stage::Done {
                        outcome: GrantOutcome::Denied { reason: GrantError::NamespaceError },
                    };
                },
            }
        }
    }
}

/// The grant behind a root shell: the caller stays in the namespace it
/// came with.
pub fn root_shell(uid: u32, pid: i32, namespace: Namespace) -> (run: GrantRun)
    ensures
        run == (GrantRun {
            request: GrantRequest { uid, pid, global: false },
            stage: Stage::Asking,
            namespace,
        }),
{
    GrantRun::begin(GrantRequest { uid, pid, global: false }, namespace)
}

/// A whole grant: the hook's answer to the first question, the result of
/// the join if one is tried, and the hook's answer to the escalation if it
/// comes to that.
pub open spec fn granted(
    request: GrantRequest,
    namespace: Namespace,
    first: HookAnswer,
    join_done: bool,
    second: HookAnswer,
) -> GrantRun {
    let asked = (GrantRun { request, stage: Stage::Asking, namespace }).answering(first);
    let placed = asked.joining(join_done);
    if placed.stage == Stage::Escalating {
        placed.answering(second)
    } else {
        placed
    }
}

/// Runs a whole grant where the answers are known beforehand.
pub fn grant(
    request: GrantRequest,
    namespace: Namespace,
    first: HookAnswer,
    join_done: bool,
    second: HookAnswer,
) -> (run: GrantRun)
    ensures
        run == granted(request, namespace, first, join_done, second),
        run.stage is Done,
{
    let mut run = GrantRun::begin(request, namespace);
    run.answered(first);
    run.joined(join_done);
    if run.stage == Stage::Escalating {
        run.answered(second);
    }
    run
}

/// Where the hook does not allow the caller root, because it denies or
/// because the kernel has no hook, the grant ends right there with that
/// reason: no join is asked for and the caller's namespace is untouched.
pub proof fn law_denied_leaves_namespace(
    request: GrantRequest,
    namespace: Namespace,
    first: HookAnswer,
    join_done: bool,
    second: HookAnswer,
)
    requires
        first != HookAnswer::Allowed,
    ensures
        (GrantRun { request, stage: Stage::Asking, namespace }).answering(first).wanted() == (
        GrantAction::Finish { outcome: GrantOutcome::Denied { reason: denial(first) } }),
        granted(request, namespace, first, join_done, second).namespace == namespace,
        granted(request, namespace, first, join_done, second).stage == (Stage::Done {
            outcome: GrantOutcome::Denied { reason: denial(first) },
        }),
{
}

/// A grant moves the caller only on a global request that the hook
/// allowed and whose join was carried out, and then into the namespace of
/// the init process. Root is granted only after the hook allowed it twice.
pub proof fn law_grant_moves_only_global(
    request: GrantRequest,
    namespace: Namespace,
    first: HookAnswer,
    join_done: bool,
    second: HookAnswer,
)
    ensures
        granted(request, namespace, first, join_done, second).namespace != namespace ==> request.global
            && first == HookAnswer::Allowed && join_done && granted(
            request,
            namespace,
            first,
            join_done,
            second,
        ).namespace == (Namespace::Joined { pid: INIT_PID }),
        granted(request, namespace, first, join_done, second).stage == (Stage::Done {
            outcome: GrantOutcome::Granted { global: request.global },
        }) ==> first == HookAnswer::Allowed && second == HookAnswer::Allowed,
{
}

} // verus!
