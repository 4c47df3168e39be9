//! What the command line decides before a command runs.
use crate::bytes::bytes_eq;
use crate::namespace::NamespaceOp;
use vstd::prelude::*;
use vstd::string::StringSliceAdditionalSpecFns;

verus! {

/// The groups of commands.
#[derive(Clone, Copy, PartialEq, Eq, Structural, Debug)]
pub enum CommandGroup {
    Module,
    PostFsData,
    Services,
    BootCompleted,
    Sepolicy,
    Profile,
    Debug,
}

#[derive(Clone, Copy, PartialEq, Eq, Structural, Debug)]
pub enum LogLevel {
    Info,
    Trace,
}

/// What is set up before a command runs.
#[derive(Debug)]
pub struct Preparation {
    pub level: LogLevel,
    /// The namespace operations to carry out first, in order.
    pub namespace: Vec<NamespaceOp>,
}

/// The kernel starts the daemon under the name of the shell where a root
/// shell is wanted.
pub open spec fn names_root_shell(arg0: Seq<u8>) -> bool {
    arg0 == "su".spec_bytes() || arg0 == "/system/bin/su".spec_bytes()
}

/// Everything is logged where the user asks for it or the marker file for
/// verbose logs exists; otherwise only what is informative.
pub open spec fn level_for(verbose: bool, marker_exists: bool) -> LogLevel {
    if !verbose && !marker_exists {
        LogLevel::Info
    } else {
        LogLevel::Trace
    }
}

/// Module commands work in a private copy of the namespace of the init
/// process; the others run where they are.
pub open spec fn namespace_for(group: CommandGroup) -> Seq<NamespaceOp> {
    if group == CommandGroup::Module {
        seq![NamespaceOp::Switch { pid: 1 }, NamespaceOp::Unshare]
    } else {
        Seq::empty()
    }
}

pub fn is_root_shell(arg0: &[u8]) -> (yes: bool)
    ensures
        yes == names_root_shell(arg0@),
{
    bytes_eq(arg0, "su".as_bytes()) || bytes_eq(arg0, "/system/bin/su".as_bytes())
}

pub fn prepare(group: CommandGroup, verbose: bool, marker_exists: bool) -> (p: Preparation)
    ensures
        p.level == level_for(verbose, marker_exists),
        p.namespace@ == namespace_for(group),
{
    let level = if !verbose && !marker_exists {
        LogLevel::Info
    } else {
        LogLevel::Trace
    };
    let mut namespace: Vec<NamespaceOp> = Vec::new();
    if group == CommandGroup::Module {
        namespace.push(NamespaceOp::Switch { pid: 1 });
        namespace.push(NamespaceOp::Unshare);
    }
    assert(namespace@ =~= namespace_for(group));
    Preparation { level, namespace }
}

} // verus!
