//! The mount namespace of the calling process, as far as this library has
//! to know it.
//!
//! A process starts in the namespace it inherited. It may join the namespace
//! of another process, and it may detach into a private copy of the one it
//! is in. Detaching cannot be undone, so joining comes first: a private
//! namespace is never left again.
use vstd::prelude::*;

verus! {

#[derive(Clone, Copy, PartialEq, Eq, Structural, Debug)]
pub enum Namespace {
    /// The namespace the process was started in.
    Inherited,
    /// The namespace of the process `pid`.
    Joined { pid: i32 },
    /// A private copy: what is mounted here, no other process sees.
    Private,
}

#[derive(Clone, Copy, PartialEq, Eq, Structural, Debug)]
pub enum NamespaceOp {
    /// Join the namespace of the process `pid`.
    Switch { pid: i32 },
    /// Detach into a private copy.
    Unshare,
}

#[derive(Clone, Copy, PartialEq, Eq, Structural, Debug)]
pub enum NamespaceError {
    /// The system refused the operation.
    Refused,
    /// A private namespace cannot be left.
    AlreadyPrivate,
    /// The operation needs a private namespace.
    NotPrivate,
}

/// Whether `op` may be tried in namespace `ns`.
pub open spec fn permits(ns: Namespace, op: NamespaceOp) -> bool {
    !(ns == Namespace::Private && op is Switch)
}

/// Where the process is after `op` was tried in `ns`; `done` says whether
/// the system carried it out.
pub open spec fn after(ns: Namespace, op: NamespaceOp, done: bool) -> Result<
    Namespace,
    NamespaceError,
> {
    if !permits(ns, op) {
        Err(NamespaceError::AlreadyPrivate)
    } else if !done {
        Err(NamespaceError::Refused)
    } else {
        match op {
            NamespaceOp::Switch { pid } => Ok(Namespace::Joined { pid }),
            NamespaceOp::Unshare => Ok(Namespace::Private),
        }
    }
}

/// Says whether `op` may be tried at all. Ask before the system is called:
/// an operation that is not permitted must not be tried.
pub fn may(ns: Namespace, op: NamespaceOp) -> (yes: bool)
    ensures
        yes == permits(ns, op),
{
    match (ns, op) {
        (Namespace::Private, NamespaceOp::Switch { .. }) => false,
        _ => true,
    }
}

/// Takes the system's answer to `op` and says where the process is now. On
/// an error the process is where it was.
pub fn record(ns: Namespace, op: NamespaceOp, done: bool) -> (r: Result<Namespace, NamespaceError>)
    ensures
        r == after(ns, op, done),
{
    if !may(ns, op) {
        Err(NamespaceError::AlreadyPrivate)
    } else if !done {
        Err(NamespaceError::Refused)
    } else {
        match op {
            NamespaceOp::Switch { pid } => Ok(Namespace::Joined { pid }),
            NamespaceOp::Unshare => Ok(Namespace::Private),
        }
    }
}

/// Takes the system's answer to joining the namespace of process
/// `target_pid`.
pub fn switch_to_namespace(ns: Namespace, target_pid: i32, done: bool) -> (r: Result<
    Namespace,
    NamespaceError,
>)
    ensures
        r == after(ns, NamespaceOp::Switch { pid: target_pid }, done),
{
    record(ns, NamespaceOp::Switch { pid: target_pid }, done)
}

/// Takes the system's answer to detaching into a private namespace.
pub fn unshare_namespace(ns: Namespace, done: bool) -> (r: Result<Namespace, NamespaceError>)
    ensures
        r == after(ns, NamespaceOp::Unshare, done),
{
    record(ns, NamespaceOp::Unshare, done)
}

/// The operations that lead into a private copy of the namespace of the
/// process `pid`: join, then detach.
pub fn enter_private_copy(pid: i32) -> (ops: Vec<NamespaceOp>)
    ensures
        ops@ == seq![NamespaceOp::Switch { pid }, NamespaceOp::Unshare],
{
    let mut ops: Vec<NamespaceOp> = Vec::new();
    ops.push(NamespaceOp::Switch { pid });
    ops.push(NamespaceOp::Unshare);
    assert(ops@ =~= seq![NamespaceOp::Switch { pid }, NamespaceOp::Unshare]);
    ops
}

/// No operation leads out of a private namespace.
pub proof fn law_private_is_final(op: NamespaceOp, done: bool)
    ensures
        after(Namespace::Private, op, done) is Ok ==> after(Namespace::Private, op, done)
            == Ok::<Namespace, NamespaceError>(Namespace::Private),
{
}

/// Joining and then detaching, both carried out, ends in a private
/// namespace from wherever the process started; in the other order the
/// join is refused.
pub proof fn law_join_before_detach(ns: Namespace, pid: i32)
    requires
        ns != Namespace::Private,
    ensures
        after(Namespace::Joined { pid }, NamespaceOp::Unshare, true) == Ok::<
            Namespace,
            NamespaceError,
        >(Namespace::Private),
        after(ns, NamespaceOp::Switch { pid }, true) == Ok::<Namespace, NamespaceError>(
            Namespace::Joined { pid },
        ),
        after(Namespace::Private, NamespaceOp::Switch { pid }, true) == Err::<
            Namespace,
            NamespaceError,
        >(NamespaceError::AlreadyPrivate),
{
}

} // verus!
